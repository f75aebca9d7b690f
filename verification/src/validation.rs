//! Static checks of a graph against a model: the variables known while
//! checking, and the rules for cache accesses and control flow.
use vstd::prelude::*;
use vstd::hash_map::StringHashMap;
use crate::dtype::{packed, DType};
use crate::graph::{CacheAccess, CacheIndexExpr, CacheIndexValue, MemoryKind, VarDecl};
use crate::vk_common::{AttrValue, OpAttr, OpAttrs};
use crate::model_loader::{dim_value_spec, ModelLoader, VarInfo};
use crate::runtime::{base_name, base_name_spec, i64_literal_spec, resolve_i64_literal, ValidationError};
use crate::tensor::numel;
use crate::text::str_eq;

verus! {

/// The variables known while checking a graph: declared ones and
/// temporaries, with their element types and shapes.
pub struct ValidationContext {
    pub var_shapes: StringHashMap<Vec<usize>>,
    pub var_dtypes: StringHashMap<DType>,
    pub temps: StringHashMap<bool>,
}

/// The variables known while checking, as values.
pub struct CtxView {
    pub dtypes: Map<Seq<char>, DType>,
    pub shapes: Map<Seq<char>, Seq<usize>>,
    pub temps: Set<Seq<char>>,
}

impl ValidationContext {
    /// The known variables as values.
    pub open spec fn cv(&self) -> CtxView {
        CtxView {
            dtypes: self.var_dtypes@,
            shapes: self.var_shapes@.map_values(|v: Vec<usize>| v@),
            temps: self.temps@.dom(),
        }
    }
}

/// The shape of a known variable, by the base of a possibly indexed name.
pub open spec fn var_shape_spec(shapes: Map<Seq<char>, Seq<usize>>, name: Seq<char>) -> Result<Seq<usize>, ValidationError> {
    let b = base_name_spec(name);
    if shapes.contains_key(b) {
        Ok(shapes[b])
    } else {
        Err(ValidationError::UnknownVariable)
    }
}

/// Whether a known variable holds one element.
pub open spec fn is_scalar_spec(shapes: Map<Seq<char>, Seq<usize>>, name: Seq<char>) -> Result<bool, ValidationError> {
    match var_shape_spec(shapes, name) {
        Ok(s) => Ok(numel(s) == 1),
        Err(e) => Err(e),
    }
}

proof fn lemma_numel_one(s: Seq<usize>)
    ensures
        numel(s) == 1 <==> forall|d: int| 0 <= d < s.len() ==> #[trigger] s[d] == 1,
    decreases s.len(),
{
    if s.len() > 0 {
        lemma_numel_one(s.drop_first());
        let rest = numel(s.drop_first());
        if s[0] == 1 && rest == 1 {
            assert forall|d: int| 0 <= d < s.len() implies #[trigger] s[d] == 1 by {
                if d > 0 {
                    assert(s[d] == s.drop_first()[d - 1]);
                }
            }
        } else {
            assert(s[0] as nat * rest != 1) by (nonlinear_arith)
                requires
                    !(s[0] == 1 && rest == 1),
            ;
            if s[0] == 1 {
                let d = choose|d: int| 0 <= d < s.drop_first().len() && s.drop_first()[d] != 1;
                assert(s[d + 1] == s.drop_first()[d]);
            }
        }
    }
}

impl ValidationContext {
    /// No variables known yet.
    pub fn new() -> (r: ValidationContext)
        ensures
            r.var_shapes@ == Map::<Seq<char>, Vec<usize>>::empty(),
            r.var_dtypes@ == Map::<Seq<char>, DType>::empty(),
            r.temps@ == Map::<Seq<char>, bool>::empty(),
    {
        ValidationContext { var_shapes: StringHashMap::new(), var_dtypes: StringHashMap::new(), temps: StringHashMap::new() }
    }

    /// Make a declared variable known; a name declared twice is an error.
    pub fn register_decl(&mut self, name: &str, dtype: DType, shape: Vec<usize>) -> (r: Result<(), ValidationError>)
        ensures
            old(self).var_dtypes@.contains_key(name@) ==> r == Err::<(), ValidationError>(
                ValidationError::DuplicateDeclaration,
            ) && *final(self) == *old(self),
            !old(self).var_dtypes@.contains_key(name@) ==> {
                &&& r is Ok
                &&& final(self).var_dtypes@ == old(self).var_dtypes@.insert(name@, dtype)
                &&& final(self).var_shapes@ == old(self).var_shapes@.insert(name@, shape)
                &&& final(self).temps == old(self).temps
            },
    {
        if self.var_dtypes.contains_key(name) {
            return Err(ValidationError::DuplicateDeclaration);
        }
        self.var_dtypes.insert(name.to_string(), dtype);
        self.var_shapes.insert(name.to_string(), shape);
        Ok(())
    }

    /// Make a temporary known: it may not shadow a declared variable or
    /// repeat a temporary, and its dimensions must resolve.
    pub fn register_temp(
        &mut self,
        name: &str,
        dtype: DType,
        dims: &[String],
        vars: &StringHashMap<VarDecl>,
        model: &ModelLoader,
    ) -> (r: Result<(), ValidationError>)
        ensures
            vars@.contains_key(name@) ==> r == Err::<(), ValidationError>(ValidationError::AssignShadowsDeclared)
                && *final(self) == *old(self),
            !vars@.contains_key(name@) && old(self).temps@.contains_key(name@) ==> r == Err::<(), ValidationError>(
                ValidationError::DuplicateTemporary,
            ) && *final(self) == *old(self),
            !vars@.contains_key(name@) && !old(self).temps@.contains_key(name@) && (exists|i: int|
                0 <= i < dims@.len() && #[trigger] dim_value_spec(model.sizes@, dims@[i]@) is Err) ==> r == Err::<
                (),
                ValidationError,
            >(ValidationError::InvalidDims) && *final(self) == *old(self),
            !vars@.contains_key(name@) && !old(self).temps@.contains_key(name@) && (forall|i: int|
                0 <= i < dims@.len() ==> #[trigger] dim_value_spec(model.sizes@, dims@[i]@) is Ok) ==> {
                &&& r is Ok
                &&& final(self).var_dtypes@ == old(self).var_dtypes@.insert(name@, dtype)
                &&& final(self).temps@ == old(self).temps@.insert(name@, true)
                &&& final(self).var_shapes@.contains_key(name@)
                &&& final(self).var_shapes@[name@]@ == Seq::new(
                    dims@.len(),
                    |i: int| dim_value_spec(model.sizes@, dims@[i]@)->Ok_0,
                )
                &&& final(self).var_shapes@.remove(name@) == old(self).var_shapes@.remove(name@)
            },
    {
        if vars.contains_key(name) {
            return Err(ValidationError::AssignShadowsDeclared);
        }
        if self.temps.contains_key(name) {
            return Err(ValidationError::DuplicateTemporary);
        }
        let shape = match model.resolve_shape(dims) {
            Ok(s) => s,
            Err(_) => return Err(ValidationError::InvalidDims),
        };
        let ghost before = self.var_shapes@;
        self.var_dtypes.insert(name.to_string(), dtype);
        self.var_shapes.insert(name.to_string(), shape);
        self.temps.insert(name.to_string(), true);
        assert(self.var_shapes@.remove(name@) =~= before.remove(name@));
        Ok(())
    }

    /// The declaration behind a possibly indexed name.
    pub fn decl_for<'a>(&self, name: &str, vars: &'a StringHashMap<VarDecl>) -> (r: Option<&'a VarDecl>)
        ensures
            match r {
                Some(d) => vars@.contains_key(base_name_spec(name@)) && *d == vars@[base_name_spec(name@)],
                None => !vars@.contains_key(base_name_spec(name@)),
            },
    {
        vars.get(base_name(name))
    }

    /// Whether a possibly indexed name refers to a known variable.
    pub fn has_var(&self, name: &str) -> (r: bool)
        ensures
            r == self.var_dtypes@.contains_key(base_name_spec(name@)),
    {
        self.var_dtypes.contains_key(base_name(name))
    }

    /// The element type of a known variable.
    pub fn var_dtype(&self, name: &str) -> (r: Result<DType, ValidationError>)
        ensures
            self.var_dtypes@.contains_key(base_name_spec(name@)) ==> r == Ok::<DType, ValidationError>(
                self.var_dtypes@[base_name_spec(name@)],
            ),
            !self.var_dtypes@.contains_key(base_name_spec(name@)) ==> r == Err::<DType, ValidationError>(
                ValidationError::UnknownVariable,
            ),
    {
        match self.var_dtypes.get(base_name(name)) {
            Some(d) => Ok(*d),
            None => Err(ValidationError::UnknownVariable),
        }
    }

    /// The shape of a known variable.
    pub fn var_shape(&self, name: &str) -> (r: Result<Vec<usize>, ValidationError>)
        ensures
            match var_shape_spec(self.cv().shapes, name@) {
                Ok(s) => r matches Ok(v) && v@ == s,
                Err(e) => r == Err::<Vec<usize>, ValidationError>(e),
            },
    {
        match self.var_shapes.get(base_name(name)) {
            Some(s) => Ok(crate::tensor::copy_usizes(s.as_slice())),
            None => Err(ValidationError::UnknownVariable),
        }
    }

    /// Whether a known variable holds one element.
    pub fn is_scalar_var(&self, name: &str) -> (r: Result<bool, ValidationError>)
        ensures
            r == is_scalar_spec(self.cv().shapes, name@),
    {
        let shape = match self.var_shape(name) {
            Ok(s) => s,
            Err(e) => return Err(e),
        };
        let mut i: usize = 0;
        while i < shape.len()
            invariant
                i <= shape@.len(),
                var_shape_spec(self.cv().shapes, name@) == Ok::<Seq<usize>, ValidationError>(shape@),
                forall|d: int| 0 <= d < i ==> #[trigger] shape@[d] == 1,
            decreases shape@.len() - i,
        {
            if shape[i] != 1 {
                proof {
                    lemma_numel_one(shape@);
                    assert(shape@[i as int] != 1);
                }
                return Ok(false);
            }
            i = i + 1;
        }
        proof {
            lemma_numel_one(shape@);
        }
        Ok(true)
    }
}


/// A cache index value is acceptable: a literal (negative only where
/// allowed), or a name that is a literal or model size, a loop variable, or
/// a persistent scalar.
pub open spec fn index_value_ok_spec(
    value: CacheIndexValue,
    allow_negative: bool,
    sizes: Map<Seq<char>, usize>,
    vars: Map<Seq<char>, VarDecl>,
    shapes: Map<Seq<char>, Seq<usize>>,
    loops: Seq<Seq<char>>,
) -> Result<(), ValidationError> {
    match value {
        CacheIndexValue::Lit(v) => if v < 0 && !allow_negative {
            Err(ValidationError::NegativeIndex)
        } else {
            Ok(())
        },
        CacheIndexValue::Ident(name) => if i64_literal_spec(name@, sizes) is Some {
            Ok(())
        } else if loops.contains(name@) {
            Ok(())
        } else if vars.contains_key(name@) && vars[name@].kind == MemoryKind::Persistent {
            match is_scalar_spec(shapes, name@) {
                Err(e) => Err(e),
                Ok(true) => Ok(()),
                Ok(false) => Err(ValidationError::UnknownCacheIndex),
            }
        } else {
            Err(ValidationError::UnknownCacheIndex)
        },
    }
}

/// A cache index is acceptable: its position, or its slice bounds (the end
/// may count from the back).
pub open spec fn index_expr_ok_spec(
    e: CacheIndexExpr,
    sizes: Map<Seq<char>, usize>,
    vars: Map<Seq<char>, VarDecl>,
    shapes: Map<Seq<char>, Seq<usize>>,
    loops: Seq<Seq<char>>,
) -> Result<(), ValidationError> {
    match e {
        CacheIndexExpr::Single(v) => index_value_ok_spec(v, false, sizes, vars, shapes, loops),
        CacheIndexExpr::Slice { start, end } => {
            let a = match start {
                Some(v) => index_value_ok_spec(v, false, sizes, vars, shapes, loops),
                None => Ok(()),
            };
            match a {
                Err(err) => Err(err),
                Ok(_) => match end {
                    Some(v) => index_value_ok_spec(v, true, sizes, vars, shapes, loops),
                    None => Ok(()),
                },
            }
        },
    }
}

/// The first of the first `n` indices that is not acceptable.
pub open spec fn index_exprs_ok_spec(
    exprs: Seq<CacheIndexExpr>,
    n: nat,
    sizes: Map<Seq<char>, usize>,
    vars: Map<Seq<char>, VarDecl>,
    shapes: Map<Seq<char>, Seq<usize>>,
    loops: Seq<Seq<char>>,
) -> Result<(), ValidationError>
    decreases n,
{
    if n == 0 {
        Ok(())
    } else {
        match index_exprs_ok_spec(exprs, (n - 1) as nat, sizes, vars, shapes, loops) {
            Err(e) => Err(e),
            Ok(_) => index_expr_ok_spec(exprs[n - 1], sizes, vars, shapes, loops),
        }
    }
}

/// Some index is a slice.
pub open spec fn has_slice(exprs: Seq<CacheIndexExpr>) -> bool {
    exists|i: int| 0 <= i < exprs.len() && #[trigger] exprs[i] is Slice
}

/// A cache access fits its variable: brackets around any indices, indices
/// for a table, no more indices than the variable has dimensions (or table
/// or growing indices), no slices into a growing variable nor in a table
/// reset, and every index acceptable.
pub open spec fn access_ok_spec(
    access: CacheAccess,
    decl: VarDecl,
    is_reset: bool,
    sizes: Map<Seq<char>, usize>,
    vars: Map<Seq<char>, VarDecl>,
    shapes: Map<Seq<char>, Seq<usize>>,
    loops: Seq<Seq<char>>,
) -> Result<(), ValidationError> {
    let n = access.indices@.len();
    if !access.bracketed && n > 0 {
        Err(ValidationError::MissingBrackets)
    } else if decl.is_cache_table_spec() && !access.bracketed {
        Err(ValidationError::TableNeedsIndices)
    } else {
        match var_shape_spec(shapes, access.base@) {
            Err(e) => Err(e),
            Ok(shape) => if !decl.is_cache_table_spec() && n > shape.len() {
                Err(ValidationError::TooManyIndices)
            } else if decl.has_auto_dim_spec() && has_slice(access.indices@) {
                Err(ValidationError::SliceUnsupported)
            } else if decl.is_cache_table_spec() && is_reset && has_slice(access.indices@) {
                Err(ValidationError::ResetNeedsScalarIndices)
            } else {
                let limit = if decl.is_cache_table_spec() {
                    decl.table_indices@.len()
                } else if decl.has_auto_dim_spec() {
                    decl.auto_dim@.len()
                } else {
                    shape.len()
                };
                if n > 0 && n > limit {
                    Err(ValidationError::TooManyIndices)
                } else {
                    index_exprs_ok_spec(access.indices@, n, sizes, vars, shapes, loops)
                }
            },
        }
    }
}

/// The declaration of a cached variable, which must be persistent.
pub open spec fn cache_decl_spec(vars: Map<Seq<char>, VarDecl>, name: Seq<char>) -> Result<VarDecl, ValidationError> {
    if !vars.contains_key(name) {
        Err(ValidationError::UnknownCacheVariable)
    } else if vars[name].kind != MemoryKind::Persistent {
        Err(ValidationError::NotPersistent)
    } else {
        Ok(vars[name])
    }
}

fn contains_str(v: &[String], s: &str) -> (r: bool)
    ensures
        r == crate::spirv::string_views(v@).contains(s@),
{
    let mut i: usize = 0;
    while i < v.len()
        invariant
            i <= v@.len(),
            forall|j: int| 0 <= j < i ==> v@[j]@ != s@,
        decreases v@.len() - i,
    {
        if str_eq(v[i].as_str(), s) {
            assert(crate::spirv::string_views(v@)[i as int] == s@);
            return true;
        }
        i = i + 1;
    }
    assert(!crate::spirv::string_views(v@).contains(s@)) by {
        if crate::spirv::string_views(v@).contains(s@) {
            let j = choose|j: int| 0 <= j < v@.len() && crate::spirv::string_views(v@)[j] == s@;
            assert(v@[j]@ == s@);
        }
    }
    false
}

impl ValidationContext {
    fn index_value_ok(
        &self,
        value: &CacheIndexValue,
        allow_negative: bool,
        vars: &StringHashMap<VarDecl>,
        model: &ModelLoader,
        loop_vars: &[String],
    ) -> (r: Result<(), ValidationError>)
        ensures
            r == index_value_ok_spec(*value, allow_negative, model.sizes@, vars@, self.cv().shapes, crate::spirv::string_views(loop_vars@)),
    {
        match value {
            CacheIndexValue::Lit(v) => {
                if *v < 0 && !allow_negative {
                    return Err(ValidationError::NegativeIndex);
                }
                Ok(())
            },
            CacheIndexValue::Ident(name) => {
                if resolve_i64_literal(name.as_str(), model).is_some() {
                    return Ok(());
                }
                if contains_str(loop_vars, name.as_str()) {
                    return Ok(());
                }
                if let Some(decl) = vars.get(name.as_str()) {
                    if decl.kind == MemoryKind::Persistent {
                        match self.is_scalar_var(name.as_str()) {
                            Err(e) => return Err(e),
                            Ok(true) => return Ok(()),
                            Ok(false) => {},
                        }
                    }
                }
                Err(ValidationError::UnknownCacheIndex)
            },
        }
    }

    fn index_expr_ok(
        &self,
        e: &CacheIndexExpr,
        vars: &StringHashMap<VarDecl>,
        model: &ModelLoader,
        loop_vars: &[String],
    ) -> (r: Result<(), ValidationError>)
        ensures
            r == index_expr_ok_spec(*e, model.sizes@, vars@, self.cv().shapes, crate::spirv::string_views(loop_vars@)),
    {
        match e {
            CacheIndexExpr::Single(v) => self.index_value_ok(v, false, vars, model, loop_vars),
            CacheIndexExpr::Slice { start, end } => {
                if let Some(v) = start {
                    match self.index_value_ok(v, false, vars, model, loop_vars) {
                        Err(err) => return Err(err),
                        Ok(()) => {},
                    }
                }
                match end {
                    Some(v) => self.index_value_ok(v, true, vars, model, loop_vars),
                    None => Ok(()),
                }
            },
        }
    }

    /// Whether a cache access fits its variable, as `access_ok_spec` says.
    #[verifier::loop_isolation(false)]
    pub fn validate_cache_access(
        &self,
        access: &CacheAccess,
        decl: &VarDecl,
        is_reset: bool,
        vars: &StringHashMap<VarDecl>,
        model: &ModelLoader,
        loop_vars: &[String],
    ) -> (r: Result<(), ValidationError>)
        ensures
            r == access_ok_spec(*access, *decl, is_reset, model.sizes@, vars@, self.cv().shapes, crate::spirv::string_views(loop_vars@)),
    {
        let n = access.indices.len();
        if !access.bracketed && n > 0 {
            return Err(ValidationError::MissingBrackets);
        }
        let table = decl.is_cache_table();
        if table && !access.bracketed {
            return Err(ValidationError::TableNeedsIndices);
        }
        let shape = match self.var_shape(access.base.as_str()) {
            Ok(s) => s,
            Err(e) => return Err(e),
        };
        if !table && n > shape.len() {
            return Err(ValidationError::TooManyIndices);
        }
        let mut any_slice = false;
        let mut i: usize = 0;
        while i < n
            invariant
                i <= n == access.indices@.len(),
                any_slice == exists|j: int| 0 <= j < i && #[trigger] access.indices@[j] is Slice,
            decreases n - i,
        {
            if !crate::cache::cache_index_is_single(&access.indices[i]) {
                any_slice = true;
            }
            i = i + 1;
        }
        if decl.has_auto_dim() && any_slice {
            return Err(ValidationError::SliceUnsupported);
        }
        if table && is_reset && any_slice {
            return Err(ValidationError::ResetNeedsScalarIndices);
        }
        let limit = if table {
            decl.table_indices.len()
        } else if decl.has_auto_dim() {
            decl.auto_dim.len()
        } else {
            shape.len()
        };
        if n > 0 && n > limit {
            return Err(ValidationError::TooManyIndices);
        }
        let mut k: usize = 0;
        while k < n
            invariant
                k <= n == access.indices@.len(),
                index_exprs_ok_spec(access.indices@, k as nat, model.sizes@, vars@, self.cv().shapes, crate::spirv::string_views(loop_vars@))
                    is Ok,
            decreases n - k,
        {
            match self.index_expr_ok(&access.indices[k], vars, model, loop_vars) {
                Err(e) => {
                    proof {
                        lemma_exprs_err(access.indices@, (k + 1) as nat, n as nat, model.sizes@, vars@, self.cv().shapes, crate::spirv::string_views(loop_vars@));
                    }
                    return Err(e);
                },
                Ok(()) => {},
            }
            k = k + 1;
        }
        Ok(())
    }
}

proof fn lemma_exprs_err(
    exprs: Seq<CacheIndexExpr>,
    i: nat,
    n: nat,
    sizes: Map<Seq<char>, usize>,
    vars: Map<Seq<char>, VarDecl>,
    shapes: Map<Seq<char>, Seq<usize>>,
    loops: Seq<Seq<char>>,
)
    requires
        i <= n,
        index_exprs_ok_spec(exprs, i, sizes, vars, shapes, loops) is Err,
    ensures
        index_exprs_ok_spec(exprs, n, sizes, vars, shapes, loops) == index_exprs_ok_spec(exprs, i, sizes, vars, shapes, loops),
    decreases n - i,
{
    if i < n {
        lemma_exprs_err(exprs, i, (n - 1) as nat, sizes, vars, shapes, loops);
    }
}


/// A cache read from `src` into `dst`: a persistent source whose access
/// fits it, a mutable non-persistent output, and one element type.
pub open spec fn cache_read_ok_spec(
    ctx: CtxView,
    src: CacheAccess,
    dst: Seq<char>,
    sizes: Map<Seq<char>, usize>,
    vars: Map<Seq<char>, VarDecl>,
    loops: Seq<Seq<char>>,
) -> Result<(), ValidationError> {
    match cache_decl_spec(vars, src.base@) {
        Err(e) => Err(e),
        Ok(decl) => match access_ok_spec(src, decl, false, sizes, vars, ctx.shapes, loops) {
            Err(e) => Err(e),
            Ok(_) => {
                let b = base_name_spec(dst);
                if vars.contains_key(b) && (vars[b].kind == MemoryKind::Constant || vars[b].kind
                    == MemoryKind::Persistent) {
                    Err(ValidationError::OutputNotMutable)
                } else if !ctx.dtypes.contains_key(b) {
                    Err(ValidationError::UnknownVariable)
                } else if ctx.dtypes[b] != decl.dtype {
                    Err(ValidationError::DtypeMismatch)
                } else {
                    Ok(())
                }
            },
        },
    }
}

/// A cache write of `src` into `dst`: a persistent target whose access fits
/// it, and one element type.
pub open spec fn cache_write_ok_spec(
    ctx: CtxView,
    src: Seq<char>,
    dst: CacheAccess,
    sizes: Map<Seq<char>, usize>,
    vars: Map<Seq<char>, VarDecl>,
    loops: Seq<Seq<char>>,
) -> Result<(), ValidationError> {
    match cache_decl_spec(vars, dst.base@) {
        Err(e) => Err(e),
        Ok(decl) => match access_ok_spec(dst, decl, false, sizes, vars, ctx.shapes, loops) {
            Err(e) => Err(e),
            Ok(_) => {
                let b = base_name_spec(src);
                if !ctx.dtypes.contains_key(b) {
                    Err(ValidationError::UnknownVariable)
                } else if ctx.dtypes[b] != decl.dtype {
                    Err(ValidationError::DtypeMismatch)
                } else {
                    Ok(())
                }
            },
        },
    }
}

/// A cache increment or decrement: a persistent scalar of a type that
/// counts (not packed, boolean or bitset).
pub open spec fn cache_bump_ok_spec(ctx: CtxView, target: Seq<char>, vars: Map<Seq<char>, VarDecl>) -> Result<
    (),
    ValidationError,
> {
    match cache_decl_spec(vars, target) {
        Err(e) => Err(e),
        Ok(decl) => match is_scalar_spec(ctx.shapes, target) {
            Err(e) => Err(e),
            Ok(false) => Err(ValidationError::NotScalar),
            Ok(true) => if packed(decl.dtype) || decl.dtype == DType::Bool || decl.dtype == DType::Bitset {
                Err(ValidationError::IncrementDtypeUnsupported)
            } else {
                Ok(())
            },
        },
    }
}

/// A cache reset: a persistent target whose access fits it.
pub open spec fn cache_reset_ok_spec(
    ctx: CtxView,
    target: CacheAccess,
    sizes: Map<Seq<char>, usize>,
    vars: Map<Seq<char>, VarDecl>,
    loops: Seq<Seq<char>>,
) -> Result<(), ValidationError> {
    match cache_decl_spec(vars, target.base@) {
        Err(e) => Err(e),
        Ok(decl) => access_ok_spec(target, decl, true, sizes, vars, ctx.shapes, loops),
    }
}

impl ValidationContext {
    fn cache_decl<'a>(&self, vars: &'a StringHashMap<VarDecl>, name: &str) -> (r: Result<&'a VarDecl, ValidationError>)
        ensures
            match cache_decl_spec(vars@, name@) {
                Ok(d) => r matches Ok(x) && *x == d,
                Err(e) => r == Err::<&VarDecl, ValidationError>(e),
            },
    {
        match vars.get(name) {
            None => Err(ValidationError::UnknownCacheVariable),
            Some(d) => {
                if d.kind != MemoryKind::Persistent {
                    return Err(ValidationError::NotPersistent);
                }
                Ok(d)
            },
        }
    }

    /// Check a cache read, as `cache_read_ok_spec` says.
    pub fn validate_cache_read(
        &self,
        src: &CacheAccess,
        dst: &str,
        vars: &StringHashMap<VarDecl>,
        model: &ModelLoader,
        loop_vars: &[String],
    ) -> (r: Result<(), ValidationError>)
        ensures
            r == cache_read_ok_spec(self.cv(), *src, dst@, model.sizes@, vars@, crate::spirv::string_views(loop_vars@)),
    {
        let decl = match self.cache_decl(vars, src.base.as_str()) {
            Ok(d) => d,
            Err(e) => return Err(e),
        };
        match self.validate_cache_access(src, decl, false, vars, model, loop_vars) {
            Ok(()) => {},
            Err(e) => return Err(e),
        }
        if let Some(out) = self.decl_for(dst, vars) {
            if out.kind == MemoryKind::Constant || out.kind == MemoryKind::Persistent {
                return Err(ValidationError::OutputNotMutable);
            }
        }
        let out_dtype = match self.var_dtype(dst) {
            Ok(d) => d,
            Err(e) => return Err(e),
        };
        if out_dtype != decl.dtype {
            return Err(ValidationError::DtypeMismatch);
        }
        Ok(())
    }

    /// Check a cache write, as `cache_write_ok_spec` says.
    pub fn validate_cache_write(
        &self,
        src: &str,
        dst: &CacheAccess,
        vars: &StringHashMap<VarDecl>,
        model: &ModelLoader,
        loop_vars: &[String],
    ) -> (r: Result<(), ValidationError>)
        ensures
            r == cache_write_ok_spec(self.cv(), src@, *dst, model.sizes@, vars@, crate::spirv::string_views(loop_vars@)),
    {
        let decl = match self.cache_decl(vars, dst.base.as_str()) {
            Ok(d) => d,
            Err(e) => return Err(e),
        };
        match self.validate_cache_access(dst, decl, false, vars, model, loop_vars) {
            Ok(()) => {},
            Err(e) => return Err(e),
        }
        let in_dtype = match self.var_dtype(src) {
            Ok(d) => d,
            Err(e) => return Err(e),
        };
        if in_dtype != decl.dtype {
            return Err(ValidationError::DtypeMismatch);
        }
        Ok(())
    }

    /// Check a cache increment or decrement, as `cache_bump_ok_spec` says.
    pub fn validate_cache_bump(&self, target: &str, vars: &StringHashMap<VarDecl>) -> (r: Result<(), ValidationError>)
        ensures
            r == cache_bump_ok_spec(self.cv(), target@, vars@),
    {
        let decl = match self.cache_decl(vars, target) {
            Ok(d) => d,
            Err(e) => return Err(e),
        };
        match self.is_scalar_var(target) {
            Err(e) => return Err(e),
            Ok(false) => return Err(ValidationError::NotScalar),
            Ok(true) => {},
        }
        if decl.dtype.is_packed() || decl.dtype == DType::Bool || decl.dtype == DType::Bitset {
            return Err(ValidationError::IncrementDtypeUnsupported);
        }
        Ok(())
    }

    /// Check a cache reset, as `cache_reset_ok_spec` says.
    pub fn validate_cache_reset(
        &self,
        target: &CacheAccess,
        vars: &StringHashMap<VarDecl>,
        model: &ModelLoader,
        loop_vars: &[String],
    ) -> (r: Result<(), ValidationError>)
        ensures
            r == cache_reset_ok_spec(self.cv(), *target, model.sizes@, vars@, crate::spirv::string_views(loop_vars@)),
    {
        let decl = match self.cache_decl(vars, target.base.as_str()) {
            Ok(d) => d,
            Err(e) => return Err(e),
        };
        self.validate_cache_access(target, decl, true, vars, model, loop_vars)
    }

    /// A variable named by a condition or loop bound must be a known
    /// scalar.
    pub fn ensure_known_scalar(&self, name: &str) -> (r: Result<(), ValidationError>)
        ensures
            !self.var_dtypes@.contains_key(base_name_spec(name@)) ==> r == Err::<(), ValidationError>(
                ValidationError::UnknownVariable,
            ),
            self.var_dtypes@.contains_key(base_name_spec(name@)) ==> r == match is_scalar_spec(self.cv().shapes, name@) {
                Err(e) => Err(e),
                Ok(true) => Ok(()),
                Ok(false) => Err(ValidationError::NotScalar),
            },
    {
        if !self.has_var(name) {
            return Err(ValidationError::UnknownVariable);
        }
        match self.is_scalar_var(name) {
            Err(e) => Err(e),
            Ok(true) => Ok(()),
            Ok(false) => Err(ValidationError::NotScalar),
        }
    }

    /// Check a branch: its target blocks exist, and a conditional branch has
    /// an else block and a known scalar condition.
    pub fn validate_branch(
        &self,
        block_names: &[String],
        cond: Option<&str>,
        then_block: &str,
        else_block: Option<&str>,
    ) -> (r: Result<(), ValidationError>)
        ensures
            !crate::spirv::string_views(block_names@).contains(then_block@) ==> r == Err::<(), ValidationError>(
                ValidationError::UnknownBranchTarget,
            ),
            crate::spirv::string_views(block_names@).contains(then_block@) && (else_block matches Some(e)
                && !crate::spirv::string_views(block_names@).contains(e@)) ==> r == Err::<(), ValidationError>(
                ValidationError::UnknownBranchTarget,
            ),
            crate::spirv::string_views(block_names@).contains(then_block@) && (else_block matches Some(e)
                ==> crate::spirv::string_views(block_names@).contains(e@)) ==> match cond {
                None => r is Ok,
                Some(c) => if else_block is None {
                    r == Err::<(), ValidationError>(ValidationError::BranchNeedsElse)
                } else if !self.var_dtypes@.contains_key(base_name_spec(c@)) {
                    r == Err::<(), ValidationError>(ValidationError::UnknownVariable)
                } else {
                    r == match is_scalar_spec(self.cv().shapes, c@) {
                        Err(e) => Err(e),
                        Ok(true) => Ok(()),
                        Ok(false) => Err(ValidationError::NotScalar),
                    }
                },
            },
    {
        if !contains_str(block_names, then_block) {
            return Err(ValidationError::UnknownBranchTarget);
        }
        if let Some(e) = else_block {
            if !contains_str(block_names, e) {
                return Err(ValidationError::UnknownBranchTarget);
            }
        }
        if let Some(c) = cond {
            if else_block.is_none() {
                return Err(ValidationError::BranchNeedsElse);
            }
            return self.ensure_known_scalar(c);
        }
        Ok(())
    }

    /// Check a loop bound: a literal or model size, or a known scalar.
    pub fn validate_loop_bound(&self, expr: &str, model: &ModelLoader) -> (r: Result<(), ValidationError>)
        ensures
            i64_literal_spec(expr@, model.sizes@) is Some ==> r is Ok,
            i64_literal_spec(expr@, model.sizes@) is None ==> !self.var_dtypes@.contains_key(base_name_spec(expr@))
                ==> r == Err::<(), ValidationError>(ValidationError::UnknownVariable),
            i64_literal_spec(expr@, model.sizes@) is None && self.var_dtypes@.contains_key(base_name_spec(expr@)) ==> r
                == match is_scalar_spec(self.cv().shapes, expr@) {
                Err(e) => Err(e),
                Ok(true) => Ok(()),
                Ok(false) => Err(ValidationError::NotScalar),
            },
    {
        if resolve_i64_literal(expr, model).is_some() {
            return Ok(());
        }
        self.ensure_known_scalar(expr)
    }

    /// Check both bounds of a loop, start first.
    pub fn validate_loop_bounds(&self, start: &str, end: &str, model: &ModelLoader) -> (r: Result<(), ValidationError>)
        ensures
            r is Ok <==> (self.validate_loop_bound_ok(start@, model) && self.validate_loop_bound_ok(end@, model)),
    {
        match self.validate_loop_bound(start, model) {
            Err(e) => return Err(e),
            Ok(()) => {},
        }
        self.validate_loop_bound(end, model)
    }

    /// A loop bound checks out.
    pub open spec fn validate_loop_bound_ok(&self, expr: Seq<char>, model: &ModelLoader) -> bool {
        i64_literal_spec(expr, model.sizes@) is Some || (self.var_dtypes@.contains_key(base_name_spec(expr))
            && is_scalar_spec(self.cv().shapes, expr) == Ok::<bool, ValidationError>(true))
    }

    /// A yielded variable must be known.
    pub fn validate_yield_var(&self, name: &str) -> (r: Result<(), ValidationError>)
        ensures
            r is Ok <==> self.var_dtypes@.contains_key(base_name_spec(name@)),
            r is Err ==> r == Err::<(), ValidationError>(ValidationError::UnknownVariable),
    {
        if !self.has_var(name) {
            return Err(ValidationError::UnknownVariable);
        }
        Ok(())
    }

    /// An awaited variable must be known and not a constant.
    pub fn validate_await_var(&self, name: &str, vars: &StringHashMap<VarDecl>) -> (r: Result<(), ValidationError>)
        ensures
            !self.var_dtypes@.contains_key(base_name_spec(name@)) ==> r == Err::<(), ValidationError>(
                ValidationError::UnknownVariable,
            ),
            self.var_dtypes@.contains_key(base_name_spec(name@)) ==> r == if vars@.contains_key(base_name_spec(name@))
                && vars@[base_name_spec(name@)].kind == MemoryKind::Constant {
                Err::<(), ValidationError>(ValidationError::AwaitOnConstant)
            } else {
                Ok(())
            },
    {
        if !self.has_var(name) {
            return Err(ValidationError::UnknownVariable);
        }
        if let Some(decl) = self.decl_for(name, vars) {
            if decl.kind == MemoryKind::Constant {
                return Err(ValidationError::AwaitOnConstant);
            }
        }
        Ok(())
    }
}


/// The shape a model file records, when every dimension fits a `usize`.
pub open spec fn model_shape_spec(dims: Seq<u64>) -> Option<Seq<usize>> {
    if exists|i: int| 0 <= i < dims.len() && #[trigger] dims[i] > usize::MAX {
        None
    } else {
        Some(Seq::new(dims.len(), |i: int| dims[i] as usize))
    }
}

/// A declared variable agrees with the model's tensor: one element type
/// and one shape.
pub open spec fn binding_ok_spec(graph_shape: Seq<usize>, graph_dtype: DType, info: VarInfo) -> Result<(), ValidationError> {
    if info.dtype != graph_dtype {
        Err(ValidationError::ModelDtypeMismatch)
    } else {
        match model_shape_spec(info.dims@) {
            None => Err(ValidationError::ModelDimsInvalid),
            Some(ms) => if ms != graph_shape {
                Err(ValidationError::ModelShapeMismatch)
            } else {
                Ok(())
            },
        }
    }
}

/// A declared variable bound to a model tensor (by its reference name,
/// which must exist, or by its own name when the model has one) agrees
/// with it.
pub open spec fn decl_binding_spec(decl: VarDecl, shape: Seq<usize>, model_vars: Map<Seq<char>, VarInfo>) -> Result<
    (),
    ValidationError,
> {
    match decl.ref_name {
        Some(r) => if !model_vars.contains_key(r@) {
            Err(ValidationError::ModelVarNotFound)
        } else {
            binding_ok_spec(shape, decl.dtype, model_vars[r@])
        },
        None => if model_vars.contains_key(decl.name@) {
            binding_ok_spec(shape, decl.dtype, model_vars[decl.name@])
        } else {
            Ok(())
        },
    }
}

/// `name` is known before declaration `k` is checked.
pub open spec fn declared_before(init: Map<Seq<char>, DType>, decls: Seq<VarDecl>, k: int, name: Seq<char>) -> bool {
    init.contains_key(name) || exists|j: int| 0 <= j < k && #[trigger] decls[j].name@ == name
}

/// The declared dimensions of a variable, resolved.
pub open spec fn decl_shape(decl: VarDecl, sizes: Map<Seq<char>, usize>) -> Seq<usize> {
    Seq::new(decl.dims@.len(), |i: int| dim_value_spec(sizes, decl.dims@[i]@)->Ok_0)
}

/// Declaration `k` checks out: a name, dimensions that resolve, no earlier
/// declaration of the name, indices for a table, and agreement with the
/// model.
pub open spec fn decl_ok_spec(
    init: Map<Seq<char>, DType>,
    decls: Seq<VarDecl>,
    k: int,
    sizes: Map<Seq<char>, usize>,
    model_vars: Map<Seq<char>, VarInfo>,
) -> Result<(), ValidationError> {
    let d = decls[k];
    if crate::text::trim(d.name@).len() == 0 {
        Err(ValidationError::EmptyVariableName)
    } else if exists|i: int| 0 <= i < d.dims@.len() && #[trigger] dim_value_spec(sizes, d.dims@[i]@) is Err {
        Err(ValidationError::InvalidDims)
    } else if declared_before(init, decls, k, d.name@) {
        Err(ValidationError::DuplicateDeclaration)
    } else if d.table && d.table_indices@.len() == 0 {
        Err(ValidationError::TableMissingIndices)
    } else {
        decl_binding_spec(d, decl_shape(d, sizes), model_vars)
    }
}

/// The first of the first `n` declarations that does not check out.
pub open spec fn vars_ok_spec(
    init: Map<Seq<char>, DType>,
    decls: Seq<VarDecl>,
    n: nat,
    sizes: Map<Seq<char>, usize>,
    model_vars: Map<Seq<char>, VarInfo>,
) -> Result<(), ValidationError>
    decreases n,
{
    if n == 0 {
        Ok(())
    } else {
        match vars_ok_spec(init, decls, (n - 1) as nat, sizes, model_vars) {
            Err(e) => Err(e),
            Ok(_) => decl_ok_spec(init, decls, n - 1, sizes, model_vars),
        }
    }
}

proof fn lemma_vars_err(
    init: Map<Seq<char>, DType>,
    decls: Seq<VarDecl>,
    i: nat,
    n: nat,
    sizes: Map<Seq<char>, usize>,
    model_vars: Map<Seq<char>, VarInfo>,
)
    requires
        i <= n,
        vars_ok_spec(init, decls, i, sizes, model_vars) is Err,
    ensures
        vars_ok_spec(init, decls, n, sizes, model_vars) == vars_ok_spec(init, decls, i, sizes, model_vars),
    decreases n - i,
{
    if i < n {
        lemma_vars_err(init, decls, i, (n - 1) as nat, sizes, model_vars);
    }
}

fn model_binding(graph_shape: &Vec<usize>, graph_dtype: DType, info: &VarInfo) -> (r: Result<(), ValidationError>)
    ensures
        r == binding_ok_spec(graph_shape@, graph_dtype, *info),
{
    if info.dtype != graph_dtype {
        return Err(ValidationError::ModelDtypeMismatch);
    }
    let mut ms: Vec<usize> = Vec::new();
    let mut i: usize = 0;
    while i < info.dims.len()
        invariant
            i <= info.dims@.len(),
            info.dtype == graph_dtype,
            forall|j: int| 0 <= j < i ==> #[trigger] info.dims@[j] <= usize::MAX,
            ms@ == Seq::new(i as nat, |j: int| info.dims@[j] as usize),
        decreases info.dims@.len() - i,
    {
        let d = info.dims[i];
        if d > usize::MAX as u64 {
            assert(info.dims@[i as int] > usize::MAX);
            return Err(ValidationError::ModelDimsInvalid);
        }
        ms.push(d as usize);
        i = i + 1;
        assert(ms@ =~= Seq::new(i as nat, |j: int| info.dims@[j] as usize));
    }
    if !crate::cache_table::same_key(ms.as_slice(), graph_shape.as_slice()) {
        return Err(ValidationError::ModelShapeMismatch);
    }
    Ok(())
}

impl ValidationContext {
    /// Check every declared variable in order and make it known, as
    /// `vars_ok_spec` says; the first failure stops the walk.
    pub fn validate_vars(&mut self, decls: &[VarDecl], model: &ModelLoader) -> (r: Result<(), ValidationError>)
        ensures
            r == vars_ok_spec(old(self).var_dtypes@, decls@, decls@.len(), model.sizes@, model.vars@),
    {
        let ghost init = self.var_dtypes@;
        let mut k: usize = 0;
        while k < decls.len()
            invariant
                k <= decls@.len(),
                init == old(self).var_dtypes@,
                vars_ok_spec(init, decls@, k as nat, model.sizes@, model.vars@) is Ok,
                forall|nm: Seq<char>| #[trigger] self.var_dtypes@.contains_key(nm) <==> declared_before(init, decls@, k as int, nm),
            decreases decls@.len() - k,
        {
            let decl = &decls[k];
            let r = self.check_decl(decl, model);
            proof {
                assert(decls@[k as int] == *decl);
            }
            match r {
                Err(e) => {
                    proof {
                        lemma_vars_err(init, decls@, (k + 1) as nat, decls@.len(), model.sizes@, model.vars@);
                    }
                    return Err(e);
                },
                Ok(()) => {},
            }
            proof {
                assert forall|nm: Seq<char>| #[trigger] self.var_dtypes@.contains_key(nm) <==> declared_before(init, decls@, k + 1, nm) by {
                    if nm == decl.name@ {
                        assert(decls@[k as int].name@ == nm);
                    }
                    if declared_before(init, decls@, k + 1, nm) && !init.contains_key(nm) {
                        let j = choose|j: int| 0 <= j < k + 1 && #[trigger] decls@[j].name@ == nm;
                        if j < k {
                            assert(declared_before(init, decls@, k as int, nm));
                        }
                    }
                }
            }
            k = k + 1;
        }
        Ok(())
    }

    /// One declaration: its checks in order, and made known when they pass
    /// the duplicate check.
    fn check_decl(&mut self, decl: &VarDecl, model: &ModelLoader) -> (r: Result<(), ValidationError>)
        ensures
            crate::text::trim(decl.name@).len() == 0 ==> r == Err::<(), ValidationError>(ValidationError::EmptyVariableName),
            crate::text::trim(decl.name@).len() > 0 && (exists|i: int| 0 <= i < decl.dims@.len() && #[trigger] dim_value_spec(model.sizes@, decl.dims@[i]@) is Err)
                ==> r == Err::<(), ValidationError>(ValidationError::InvalidDims),
            crate::text::trim(decl.name@).len() > 0 && (forall|i: int| 0 <= i < decl.dims@.len() ==> #[trigger] dim_value_spec(model.sizes@, decl.dims@[i]@) is Ok)
                ==> {
                if old(self).var_dtypes@.contains_key(decl.name@) {
                    r == Err::<(), ValidationError>(ValidationError::DuplicateDeclaration)
                } else {
                    &&& final(self).var_dtypes@ == old(self).var_dtypes@.insert(decl.name@, decl.dtype)
                    &&& r == if decl.table && decl.table_indices@.len() == 0 {
                        Err(ValidationError::TableMissingIndices)
                    } else {
                        decl_binding_spec(*decl, decl_shape(*decl, model.sizes@), model.vars@)
                    }
                }
            },
            r is Ok ==> final(self).var_dtypes@ == old(self).var_dtypes@.insert(decl.name@, decl.dtype),
    {
        if crate::text::trim_str(decl.name.as_str()).unicode_len() == 0 {
            return Err(ValidationError::EmptyVariableName);
        }
        let shape = match model.resolve_shape(decl.dims.as_slice()) {
            Ok(s) => s,
            Err(_) => return Err(ValidationError::InvalidDims),
        };
        let keep = crate::tensor::copy_usizes(shape.as_slice());
        match self.register_decl(decl.name.as_str(), decl.dtype, shape) {
            Err(e) => return Err(e),
            Ok(()) => {},
        }
        if decl.table && decl.table_indices.len() == 0 {
            return Err(ValidationError::TableMissingIndices);
        }
        match &decl.ref_name {
            Some(rn) => match model.var_info(rn.as_str()) {
                None => Err(ValidationError::ModelVarNotFound),
                Some(info) => model_binding(&keep, decl.dtype, info),
            },
            None => match model.var_info(decl.name.as_str()) {
                Some(info) => model_binding(&keep, decl.dtype, info),
                None => Ok(()),
            },
        }
    }
}


/// A transfer from `src` into `dst`: both known, a mutable destination,
/// and one element type and shape.
pub open spec fn transfer_ok_spec(ctx: CtxView, vars: Map<Seq<char>, VarDecl>, src: Seq<char>, dst: Seq<char>) -> Result<
    (),
    ValidationError,
> {
    let bs = base_name_spec(src);
    let bd = base_name_spec(dst);
    if !ctx.dtypes.contains_key(bs) {
        Err(ValidationError::TransferSourceUnknown)
    } else if !ctx.dtypes.contains_key(bd) {
        Err(ValidationError::TransferDestinationUnknown)
    } else if vars.contains_key(bd) && (vars[bd].kind == MemoryKind::Constant || vars[bd].kind
        == MemoryKind::Persistent) {
        Err(ValidationError::TransferIntoImmutable)
    } else if ctx.dtypes[bs] != ctx.dtypes[bd] {
        Err(ValidationError::DtypeMismatch)
    } else if !ctx.shapes.contains_key(bs) || !ctx.shapes.contains_key(bd) {
        Err(ValidationError::UnknownVariable)
    } else if ctx.shapes[bs] != ctx.shapes[bd] {
        Err(ValidationError::TransferShapeMismatch)
    } else {
        Ok(())
    }
}

/// A transfer that checks out moves between two known variables of one
/// element type and one shape, into one that is neither constant nor
/// persistent.
pub proof fn law_transfer_keeps_type_and_shape(
    ctx: CtxView,
    vars: Map<Seq<char>, VarDecl>,
    src: Seq<char>,
    dst: Seq<char>,
)
    requires
        transfer_ok_spec(ctx, vars, src, dst) is Ok,
    ensures
        ({
            let bs = base_name_spec(src);
            let bd = base_name_spec(dst);
            &&& ctx.dtypes.contains_key(bs) && ctx.dtypes.contains_key(bd)
            &&& ctx.dtypes[bs] == ctx.dtypes[bd]
            &&& ctx.shapes.contains_key(bs) && ctx.shapes.contains_key(bd)
            &&& ctx.shapes[bs] == ctx.shapes[bd]
            &&& !(vars.contains_key(bd) && (vars[bd].kind == MemoryKind::Constant || vars[bd].kind
                == MemoryKind::Persistent))
        }),
{
}

/// Two known variables of different element types never transfer into
/// each other, whatever else holds of them.
pub proof fn law_transfer_refuses_type_change(
    ctx: CtxView,
    vars: Map<Seq<char>, VarDecl>,
    src: Seq<char>,
    dst: Seq<char>,
)
    requires
        ctx.dtypes.contains_key(base_name_spec(src)),
        ctx.dtypes.contains_key(base_name_spec(dst)),
        ctx.dtypes[base_name_spec(src)] != ctx.dtypes[base_name_spec(dst)],
    ensures
        transfer_ok_spec(ctx, vars, src, dst) is Err,
        transfer_ok_spec(ctx, vars, dst, src) is Err,
{
}

/// Kind of value an operator parameter takes.
#[derive(Clone, Copy, Debug, PartialEq, Eq, Structural)]
pub enum ParamKind {
    DTypes,
    IntList,
    Bool,
    String,
    Scalar,
}

/// A parameter an operator accepts.
#[derive(Clone, Debug)]
pub struct ParamDef {
    pub name: String,
    pub kind: ParamKind,
}

/// Whether an attribute value fits a parameter kind.
pub open spec fn param_kind_matches_spec(kind: ParamKind, value: AttrValue) -> bool {
    match kind {
        ParamKind::DTypes => value is Float || value is Double || value is Int || value is UInt || value is Bool
            || value is Var || value is DType,
        ParamKind::IntList => value is IntList,
        ParamKind::Bool => value is Bool || value is Var,
        ParamKind::String => value is Str || value is Var,
        ParamKind::Scalar => value is Float || value is Double || value is Int || value is UInt || value is Bool
            || value is Var,
    }
}

/// Whether an attribute value fits a parameter kind.
pub fn param_kind_matches(kind: ParamKind, value: &AttrValue) -> (r: bool)
    ensures
        r == param_kind_matches_spec(kind, *value),
{
    match kind {
        ParamKind::DTypes => match value {
            AttrValue::Float(_) | AttrValue::Double(_) | AttrValue::Int(_) | AttrValue::UInt(_) | AttrValue::Bool(_)
            | AttrValue::Var(_) | AttrValue::DType(_) => true,
            _ => false,
        },
        ParamKind::IntList => match value {
            AttrValue::IntList(_) => true,
            _ => false,
        },
        ParamKind::Bool => match value {
            AttrValue::Bool(_) | AttrValue::Var(_) => true,
            _ => false,
        },
        ParamKind::String => match value {
            AttrValue::Str(_) | AttrValue::Var(_) => true,
            _ => false,
        },
        ParamKind::Scalar => match value {
            AttrValue::Float(_) | AttrValue::Double(_) | AttrValue::Int(_) | AttrValue::UInt(_) | AttrValue::Bool(_)
            | AttrValue::Var(_) => true,
            _ => false,
        },
    }
}

/// Position of the first parameter named `name`.
pub open spec fn param_pos(allowed: Seq<ParamDef>, name: Seq<char>) -> Option<int> {
    if exists|i: int| 0 <= i < allowed.len() && #[trigger] allowed[i].name@ == name {
        Some(
            choose|i: int|
                0 <= i < allowed.len() && #[trigger] allowed[i].name@ == name && forall|j: int|
                    0 <= j < i ==> #[trigger] allowed[j].name@ != name,
        )
    } else {
        None
    }
}

/// Attribute `k` checks out: named once, accepted by the operator, of the
/// parameter's kind; a variable in a type parameter must be a known
/// scalar, and one in a string parameter a metadata string.
pub open spec fn attr_ok_spec(
    ctx: CtxView,
    items: Seq<OpAttr>,
    k: int,
    allowed: Seq<ParamDef>,
    meta_strings: spec_fn(Seq<char>) -> bool,
) -> Result<(), ValidationError> {
    let a = items[k];
    if exists|j: int| 0 <= j < k && #[trigger] items[j].name@ == a.name@ {
        Err(ValidationError::DuplicateAttr)
    } else {
        match param_pos(allowed, a.name@) {
            None => Err(ValidationError::UnsupportedAttr),
            Some(p) => {
                let kind = allowed[p].kind;
                if !param_kind_matches_spec(kind, a.value) {
                    Err(ValidationError::AttrTypeMismatch)
                } else {
                    match (kind, a.value) {
                        (ParamKind::DTypes, AttrValue::Var(n)) => if !ctx.dtypes.contains_key(base_name_spec(n@)) {
                            Err(ValidationError::UnknownAttrVariable)
                        } else {
                            match is_scalar_spec(ctx.shapes, n@) {
                                Err(e) => Err(e),
                                Ok(false) => Err(ValidationError::AttrNotScalar),
                                Ok(true) => Ok(()),
                            }
                        },
                        (ParamKind::String, AttrValue::Var(n)) => if !meta_strings(n@) {
                            Err(ValidationError::UnknownAttrString)
                        } else {
                            Ok(())
                        },
                        _ => Ok(()),
                    }
                }
            },
        }
    }
}

/// The first of the first `n` attributes that does not check out.
pub open spec fn attrs_ok_spec(
    ctx: CtxView,
    items: Seq<OpAttr>,
    n: nat,
    allowed: Seq<ParamDef>,
    meta_strings: spec_fn(Seq<char>) -> bool,
) -> Result<(), ValidationError>
    decreases n,
{
    if n == 0 {
        Ok(())
    } else {
        match attrs_ok_spec(ctx, items, (n - 1) as nat, allowed, meta_strings) {
            Err(e) => Err(e),
            Ok(_) => attr_ok_spec(ctx, items, n - 1, allowed, meta_strings),
        }
    }
}

/// The metadata entries of a model that hold strings.
pub open spec fn meta_strings_of(model: ModelLoader) -> spec_fn(Seq<char>) -> bool {
    |n: Seq<char>| model.metadata@.contains_key(n) && model.metadata@[n].value_type == crate::model_loader::VT_STRING
}

proof fn lemma_attrs_err(
    ctx: CtxView,
    items: Seq<OpAttr>,
    i: nat,
    n: nat,
    allowed: Seq<ParamDef>,
    meta_strings: spec_fn(Seq<char>) -> bool,
)
    requires
        i <= n,
        attrs_ok_spec(ctx, items, i, allowed, meta_strings) is Err,
    ensures
        attrs_ok_spec(ctx, items, n, allowed, meta_strings) == attrs_ok_spec(ctx, items, i, allowed, meta_strings),
    decreases n - i,
{
    if i < n {
        lemma_attrs_err(ctx, items, i, (n - 1) as nat, allowed, meta_strings);
    }
}

fn find_param(allowed: &[ParamDef], name: &str) -> (r: Option<usize>)
    ensures
        match r {
            Some(i) => i < allowed@.len() && param_pos(allowed@, name@) == Some(i as int),
            None => param_pos(allowed@, name@) is None,
        },
{
    let mut i: usize = 0;
    while i < allowed.len()
        invariant
            i <= allowed@.len(),
            forall|j: int| 0 <= j < i ==> #[trigger] allowed@[j].name@ != name@,
        decreases allowed@.len() - i,
    {
        if str_eq(allowed[i].name.as_str(), name) {
            assert(allowed@[i as int].name@ == name@);
            return Some(i);
        }
        i = i + 1;
    }
    None
}

impl ValidationContext {
    /// Check a transfer, as `transfer_ok_spec` says.
    pub fn validate_transfer(&self, src: &str, dst: &str, vars: &StringHashMap<VarDecl>) -> (r: Result<(), ValidationError>)
        ensures
            r == transfer_ok_spec(self.cv(), vars@, src@, dst@),
    {
        if !self.has_var(src) {
            return Err(ValidationError::TransferSourceUnknown);
        }
        if !self.has_var(dst) {
            return Err(ValidationError::TransferDestinationUnknown);
        }
        if let Some(decl) = self.decl_for(dst, vars) {
            if decl.kind == MemoryKind::Constant || decl.kind == MemoryKind::Persistent {
                return Err(ValidationError::TransferIntoImmutable);
            }
        }
        let sd = match self.var_dtype(src) {
            Ok(d) => d,
            Err(e) => return Err(e),
        };
        let dd = match self.var_dtype(dst) {
            Ok(d) => d,
            Err(e) => return Err(e),
        };
        if sd != dd {
            return Err(ValidationError::DtypeMismatch);
        }
        let ss = match self.var_shape(src) {
            Ok(s) => s,
            Err(e) => return Err(e),
        };
        let ds = match self.var_shape(dst) {
            Ok(s) => s,
            Err(e) => return Err(e),
        };
        if !crate::cache_table::same_key(ss.as_slice(), ds.as_slice()) {
            return Err(ValidationError::TransferShapeMismatch);
        }
        Ok(())
    }

    fn attr_ok(&self, items: &Vec<OpAttr>, k: usize, allowed: &[ParamDef], model: &ModelLoader) -> (r: Result<(), ValidationError>)
        requires
            k < items@.len(),
        ensures
            r == attr_ok_spec(self.cv(), items@, k as int, allowed@, meta_strings_of(*model)),
    {
        let a = &items[k];
        let mut j: usize = 0;
        while j < k
            invariant
                j <= k < items@.len(),
                *a == items@[k as int],
                forall|q: int| 0 <= q < j ==> #[trigger] items@[q].name@ != a.name@,
            decreases k - j,
        {
            if str_eq(items[j].name.as_str(), a.name.as_str()) {
                assert(items@[j as int].name@ == a.name@);
                return Err(ValidationError::DuplicateAttr);
            }
            j = j + 1;
        }
        let p = match find_param(allowed, a.name.as_str()) {
            None => return Err(ValidationError::UnsupportedAttr),
            Some(p) => p,
        };
        let kind = allowed[p].kind;
        if !param_kind_matches(kind, &a.value) {
            return Err(ValidationError::AttrTypeMismatch);
        }
        match (kind, &a.value) {
            (ParamKind::DTypes, AttrValue::Var(n)) => {
                if !self.has_var(n.as_str()) {
                    return Err(ValidationError::UnknownAttrVariable);
                }
                match self.is_scalar_var(n.as_str()) {
                    Err(e) => Err(e),
                    Ok(false) => Err(ValidationError::AttrNotScalar),
                    Ok(true) => Ok(()),
                }
            },
            (ParamKind::String, AttrValue::Var(n)) => {
                if !model.has_metadata_string(n.as_str()) {
                    return Err(ValidationError::UnknownAttrString);
                }
                Ok(())
            },
            _ => Ok(()),
        }
    }

    /// Check the attributes of an operator node in order, as
    /// `attrs_ok_spec` says.
    pub fn validate_attrs(&self, attrs: &OpAttrs, allowed: &[ParamDef], model: &ModelLoader) -> (r: Result<(), ValidationError>)
        ensures
            r == attrs_ok_spec(self.cv(), attrs.items@, attrs.items@.len(), allowed@, meta_strings_of(*model)),
    {
        let n = attrs.items.len();
        let mut k: usize = 0;
        while k < n
            invariant
                k <= n == attrs.items@.len(),
                attrs_ok_spec(self.cv(), attrs.items@, k as nat, allowed@, meta_strings_of(*model)) is Ok,
            decreases n - k,
        {
            match self.attr_ok(&attrs.items, k, allowed, model) {
                Err(e) => {
                    proof {
                        lemma_attrs_err(self.cv(), attrs.items@, (k + 1) as nat, n as nat, allowed@, meta_strings_of(*model));
                    }
                    return Err(e);
                },
                Ok(()) => {},
            }
            k = k + 1;
        }
        Ok(())
    }
}


/// What an operator's schema fixes about its nodes.
#[derive(Clone, Copy, Debug)]
pub struct OpSchemaCheck {
    pub input_count: usize,
    pub output_count: usize,
    pub supports_broadcast: bool,
    pub supports_inplace: bool,
}

/// An input of an operator node checks out: known, and not a persistent
/// cache (those are read with cache reads).
pub open spec fn input_ok_spec(ctx: CtxView, vars: Map<Seq<char>, VarDecl>, name: Seq<char>) -> Result<
    (),
    ValidationError,
> {
    let b = base_name_spec(name);
    if !ctx.dtypes.contains_key(b) {
        Err(ValidationError::UnknownInput)
    } else if vars.contains_key(b) && vars[b].kind == MemoryKind::Persistent {
        Err(ValidationError::PersistentInput)
    } else if !ctx.shapes.contains_key(b) {
        Err(ValidationError::UnknownVariable)
    } else {
        Ok(())
    }
}

/// The first of the first `n` inputs that does not check out.
pub open spec fn inputs_ok_spec(ctx: CtxView, vars: Map<Seq<char>, VarDecl>, inputs: Seq<String>, n: nat) -> Result<
    (),
    ValidationError,
>
    decreases n,
{
    if n == 0 {
        Ok(())
    } else {
        match inputs_ok_spec(ctx, vars, inputs, (n - 1) as nat) {
            Err(e) => Err(e),
            Ok(_) => input_ok_spec(ctx, vars, inputs[n - 1]@),
        }
    }
}

/// Two neighbouring inputs differ in shape.
pub open spec fn input_shapes_differ(ctx: CtxView, inputs: Seq<String>) -> bool {
    exists|i: int|
        0 <= i && i + 1 < inputs.len() && #[trigger] ctx.shapes[base_name_spec(inputs[i]@)] != ctx.shapes[base_name_spec(
            inputs[i + 1]@,
        )]
}

/// The element type a node writes: its declared output's (which may be
/// neither constant nor persistent), or its temporary's.
pub open spec fn output_dtype_spec(ctx: CtxView, vars: Map<Seq<char>, VarDecl>, output: Seq<char>) -> Result<
    DType,
    ValidationError,
> {
    let b = base_name_spec(output);
    if vars.contains_key(b) {
        if vars[b].kind == MemoryKind::Constant {
            Err(ValidationError::WriteToConstant)
        } else if vars[b].kind == MemoryKind::Persistent {
            Err(ValidationError::PersistentOutput)
        } else {
            Ok(vars[b].dtype)
        }
    } else if !ctx.temps.contains(output) {
        Err(ValidationError::UnknownOutput)
    } else if !ctx.dtypes.contains_key(b) {
        Err(ValidationError::UnknownVariable)
    } else {
        Ok(ctx.dtypes[b])
    }
}

/// An operator node checks out: input and output counts, a named output,
/// acceptable inputs of one shape unless the operator broadcasts, a
/// writable output of the type the operator gives (`inferred`), in place
/// only where supported, a supported typing, and acceptable attributes.
pub open spec fn op_ok_spec(
    ctx: CtxView,
    vars: Map<Seq<char>, VarDecl>,
    schema: OpSchemaCheck,
    inputs: Seq<String>,
    output: Seq<char>,
    inferred: Option<DType>,
    typing_supported: bool,
    items: Seq<OpAttr>,
    params: Seq<ParamDef>,
    meta_strings: spec_fn(Seq<char>) -> bool,
) -> Result<(), ValidationError> {
    if inputs.len() != schema.input_count {
        Err(ValidationError::WrongInputCount)
    } else if schema.output_count != 1 {
        Err(ValidationError::WrongOutputCount)
    } else if crate::text::trim(output).len() == 0 {
        Err(ValidationError::MissingOutput)
    } else {
        match inputs_ok_spec(ctx, vars, inputs, inputs.len()) {
            Err(e) => Err(e),
            Ok(_) => if !schema.supports_broadcast && input_shapes_differ(ctx, inputs) {
                Err(ValidationError::BroadcastNotAllowed)
            } else {
                match output_dtype_spec(ctx, vars, output) {
                    Err(e) => Err(e),
                    Ok(od) => match inferred {
                        None => Err(ValidationError::OutputTypeUnknown),
                        Some(t) => if t != od {
                            Err(ValidationError::DtypeMismatch)
                        } else if (exists|i: int| 0 <= i < inputs.len() && #[trigger] inputs[i]@ == output)
                            && !schema.supports_inplace {
                            Err(ValidationError::InplaceNotSupported)
                        } else if inputs.len() > 0 && !typing_supported {
                            Err(ValidationError::UnsupportedTyping)
                        } else {
                            attrs_ok_spec(ctx, items, items.len(), params, meta_strings)
                        },
                    },
                }
            },
        }
    }
}

proof fn lemma_inputs_err(ctx: CtxView, vars: Map<Seq<char>, VarDecl>, inputs: Seq<String>, i: nat, n: nat)
    requires
        i <= n,
        inputs_ok_spec(ctx, vars, inputs, i) is Err,
    ensures
        inputs_ok_spec(ctx, vars, inputs, n) == inputs_ok_spec(ctx, vars, inputs, i),
    decreases n - i,
{
    if i < n {
        lemma_inputs_err(ctx, vars, inputs, i, (n - 1) as nat);
    }
}

impl ValidationContext {
    fn output_dtype(&self, vars: &StringHashMap<VarDecl>, output: &str) -> (r: Result<DType, ValidationError>)
        ensures
            r == output_dtype_spec(self.cv(), vars@, output@),
    {
        match self.decl_for(output, vars) {
            Some(decl) => {
                if decl.kind == MemoryKind::Constant {
                    return Err(ValidationError::WriteToConstant);
                }
                if decl.kind == MemoryKind::Persistent {
                    return Err(ValidationError::PersistentOutput);
                }
                Ok(decl.dtype)
            },
            None => {
                if !self.temps.contains_key(output) {
                    return Err(ValidationError::UnknownOutput);
                }
                self.var_dtype(output)
            },
        }
    }

    /// Check an operator node, as `op_ok_spec` says; what the operator's
    /// schema says of the node (the output type it gives for the input
    /// types, and whether it supports that typing) comes with it.
    #[verifier::loop_isolation(false)]
    pub fn validate_op(
        &self,
        schema: &OpSchemaCheck,
        inputs: &[String],
        output: &str,
        inferred: Option<DType>,
        typing_supported: bool,
        attrs: &OpAttrs,
        params: &[ParamDef],
        vars: &StringHashMap<VarDecl>,
        model: &ModelLoader,
    ) -> (r: Result<(), ValidationError>)
        ensures
            r == op_ok_spec(
                self.cv(),
                vars@,
                *schema,
                inputs@,
                output@,
                inferred,
                typing_supported,
                attrs.items@,
                params@,
                meta_strings_of(*model),
            ),
    {
        if inputs.len() != schema.input_count {
            return Err(ValidationError::WrongInputCount);
        }
        if schema.output_count != 1 {
            return Err(ValidationError::WrongOutputCount);
        }
        if crate::text::trim_str(output).unicode_len() == 0 {
            return Err(ValidationError::MissingOutput);
        }
        let n = inputs.len();
        let mut shapes: Vec<Vec<usize>> = Vec::new();
        let mut k: usize = 0;
        while k < n
            invariant
                k <= n == inputs@.len(),
                inputs_ok_spec(self.cv(), vars@, inputs@, k as nat) is Ok,
                shapes@.len() == k,
                forall|q: int| 0 <= q < k ==> (#[trigger] shapes@[q])@ == self.cv().shapes[base_name_spec(inputs@[q]@)],
            decreases n - k,
        {
            let name = inputs[k].as_str();
            let err = if !self.has_var(name) {
                Some(ValidationError::UnknownInput)
            } else {
                match self.decl_for(name, vars) {
                    Some(decl) => if decl.kind == MemoryKind::Persistent {
                        Some(ValidationError::PersistentInput)
                    } else {
                        None
                    },
                    None => None,
                }
            };
            let err = match err {
                Some(e) => Some(e),
                None => match self.var_shape(name) {
                    Ok(s) => {
                        shapes.push(s);
                        None
                    },
                    Err(e) => Some(e),
                },
            };
            if let Some(e) = err {
                proof {
                    assert(inputs_ok_spec(self.cv(), vars@, inputs@, (k + 1) as nat) == Err::<(), ValidationError>(e));
                    lemma_inputs_err(self.cv(), vars@, inputs@, (k + 1) as nat, n as nat);
                }
                return Err(e);
            }
            k = k + 1;
        }
        if !schema.supports_broadcast {
            let mut i: usize = 1;
            while i < n
                invariant
                    1 <= i,
                    forall|q: int| 0 <= q && q + 1 < i && q + 1 < n ==> self.cv().shapes[base_name_spec(inputs@[q]@)]
                        == #[trigger] self.cv().shapes[base_name_spec(inputs@[q + 1]@)],
                decreases n - i,
            {
                if !crate::cache_table::same_key(shapes[i - 1].as_slice(), shapes[i].as_slice()) {
                    proof {
                        let q = (i - 1) as int;
                        assert(self.cv().shapes[base_name_spec(inputs@[q]@)] != self.cv().shapes[base_name_spec(
                            inputs@[q + 1]@,
                        )]);
                    }
                    return Err(ValidationError::BroadcastNotAllowed);
                }
                i = i + 1;
            }
            assert(!input_shapes_differ(self.cv(), inputs@)) by {
                if input_shapes_differ(self.cv(), inputs@) {
                    let q = choose|q: int|
                        0 <= q && q + 1 < inputs@.len() && #[trigger] self.cv().shapes[base_name_spec(inputs@[q]@)]
                            != self.cv().shapes[base_name_spec(inputs@[q + 1]@)];
                    assert(self.cv().shapes[base_name_spec(inputs@[q]@)] == self.cv().shapes[base_name_spec(
                        inputs@[q + 1]@,
                    )]);
                }
            }
        }
        let od = match self.output_dtype(vars, output) {
            Ok(d) => d,
            Err(e) => return Err(e),
        };
        let t = match inferred {
            None => return Err(ValidationError::OutputTypeUnknown),
            Some(t) => t,
        };
        if t != od {
            return Err(ValidationError::DtypeMismatch);
        }
        let mut inplace = false;
        let mut j: usize = 0;
        while j < n
            invariant
                j <= n == inputs@.len(),
                inplace == exists|q: int| 0 <= q < j && #[trigger] inputs@[q]@ == output@,
            decreases n - j,
        {
            if str_eq(inputs[j].as_str(), output) {
                inplace = true;
            }
            j = j + 1;
        }
        if inplace && !schema.supports_inplace {
            return Err(ValidationError::InplaceNotSupported);
        }
        if n > 0 && !typing_supported {
            return Err(ValidationError::UnsupportedTyping);
        }
        self.validate_attrs(attrs, params, model)
    }
}

} // verus!
