//! Accessing cached variables through `base[indices]`: the names in the
//! indices resolved against the model's sizes, the growth counters, loop
//! variables and persistent scalars; growing dimensions raised by the
//! positions written or read; and persistent values sliced.
use vstd::prelude::*;
use vstd::hash_map::StringHashMap;
use crate::cache::{
    auto_dim_shape, cache_index_is_single, range_vec, resolve_slice_bounds, sat_add, slice_bounds_spec,
    AutoDimState, CacheError, ResolvedCacheIndexExpr, TensorIndexSelection,
};
use crate::cache_store::{initial_value_spec, persistent_shape_spec, persistent_view, table_read_spec, table_write_spec, CacheStore};
use crate::cache_table::CacheTable;
use crate::cache_utils::{expand_spec, expand_tensor_value, increment_scalar, increment_spec, scalar_i64_spec, scalar_to_i64, slice_spec, slice_tensor_value, tsel_view};
use crate::dtype::{packed, storage_units, DType};
use crate::graph::{CacheAccess, CacheIndexExpr, CacheIndexValue, MemoryKind, VarDecl};
use crate::model_loader::{dim_value_spec, ModelLoader};
use crate::tensor::{numel, shape_fits, shape_fits_exec, copy_usizes, TensorValue, TensorView};

verus! {

/// The growth state of a variable as values.
pub struct AutoView {
    pub base: Seq<usize>,
    pub counts: Seq<usize>,
    pub max: Seq<Option<usize>>,
}

impl View for AutoDimState {
    type V = AutoView;

    open spec fn view(&self) -> AutoView {
        AutoView { base: self.base_shape@, counts: self.counts@, max: self.max@ }
    }
}

/// What an access reads and changes: persistent values and growth states.
pub struct StoreView {
    pub persistent: Map<Seq<char>, TensorView>,
    pub auto: Map<Seq<char>, AutoView>,
}

impl CacheStore {
    /// The persistent values and growth states as values.
    pub open spec fn sv(&self) -> StoreView {
        StoreView {
            persistent: persistent_view(self.persistent@),
            auto: self.auto_dims@.map_values(|a: AutoDimState| a@),
        }
    }
}

/// The grown shape: each base dimension plus its count.
pub open spec fn grown_shape(a: AutoView) -> Result<Seq<usize>, CacheError> {
    if a.base.len() != a.counts.len() {
        Err(CacheError::AutoDimRankMismatch)
    } else {
        Ok(Seq::new(a.base.len(), |i: int| sat_add(a.base[i], a.counts[i])))
    }
}

/// The shape a persistent variable starts with.
pub open spec fn start_shape(s: StoreView, name: Seq<char>, decl: VarDecl, sizes: Map<Seq<char>, usize>) -> Result<
    Seq<usize>,
    CacheError,
> {
    if decl.has_auto_dim_spec() {
        if !s.auto.contains_key(name) {
            Err(CacheError::MissingAutoDimState)
        } else {
            grown_shape(s.auto[name])
        }
    } else if exists|i: int| 0 <= i < decl.dims@.len() && #[trigger] dim_value_spec(sizes, decl.dims@[i]@) is Err {
        Err(CacheError::UnknownSize)
    } else {
        Ok(Seq::new(decl.dims@.len(), |i: int| dim_value_spec(sizes, decl.dims@[i]@)->Ok_0))
    }
}

/// The store with `v` under `name`.
pub open spec fn with_persistent(s: StoreView, name: Seq<char>, v: TensorView) -> StoreView {
    StoreView { persistent: s.persistent.insert(name, v), auto: s.auto }
}

/// The persistent value under `name`, stored first with its starting value
/// when there is none: the value (or error) and the store after.
pub open spec fn get_or_init_spec(s: StoreView, name: Seq<char>, decl: VarDecl, sizes: Map<Seq<char>, usize>) -> (
    Result<TensorView, CacheError>,
    StoreView,
) {
    if s.persistent.contains_key(name) {
        (Ok(s.persistent[name]), s)
    } else {
        match start_shape(s, name, decl, sizes) {
            Err(e) => (Err(e), s),
            Ok(shape) => match initial_value_spec(decl, shape) {
                Err(e) => (Err(e), s),
                Ok(v) => (Ok(v), with_persistent(s, name, v)),
            },
        }
    }
}

/// Adding `amount` to (or subtracting it from) the scalar persistent
/// variable `target`, made first with its starting value when there is
/// none: the result and the store after.
pub open spec fn bump_spec(
    s: StoreView,
    target: Seq<char>,
    amount: i64,
    decrement: bool,
    vars: Map<Seq<char>, VarDecl>,
    sizes: Map<Seq<char>, usize>,
) -> (Result<(), CacheError>, StoreView) {
    if !vars.contains_key(target) {
        (Err(CacheError::UnknownVariable), s)
    } else if vars[target].kind != MemoryKind::Persistent {
        (Err(CacheError::NotPersistent), s)
    } else {
        match get_or_init_spec(s, target, vars[target], sizes) {
            (Err(e), s1) => (Err(e), s1),
            (Ok(v), s1) => match increment_spec(v, amount, decrement) {
                Err(e) => (Err(e), s1),
                Ok(t) => (Ok(()), with_persistent(s1, target, t)),
            },
        }
    }
}

/// The value of a name among the growth counters, when they are given.
pub open spec fn special_value(specials: Option<Map<Seq<char>, i64>>, name: Seq<char>) -> Option<i64> {
    match specials {
        Some(m) => if m.contains_key(name) {
            Some(m[name])
        } else {
            None
        },
        None => None,
    }
}

/// The value of an index: a literal, or a name looked up as a model size,
/// then a growth counter, then a loop variable, then a persistent scalar
/// (started when not yet stored); anything else is unknown.
pub open spec fn index_value_spec(
    s: StoreView,
    value: CacheIndexValue,
    vars: Map<Seq<char>, VarDecl>,
    sizes: Map<Seq<char>, usize>,
    loops: Map<Seq<char>, i64>,
    specials: Option<Map<Seq<char>, i64>>,
) -> (Result<i64, CacheError>, StoreView) {
    match value {
        CacheIndexValue::Lit(v) => (Ok(v), s),
        CacheIndexValue::Ident(name) => {
            let n = name@;
            if sizes.contains_key(n) {
                (Ok(sizes[n] as i64), s)
            } else if special_value(specials, n) is Some {
                (Ok(special_value(specials, n)->0), s)
            } else if loops.contains_key(n) {
                (Ok(loops[n]), s)
            } else if vars.contains_key(n) && vars[n].kind == MemoryKind::Persistent {
                let (t, s1) = get_or_init_spec(s, n, vars[n], sizes);
                match t {
                    Ok(tv) => (scalar_i64_spec(tv), s1),
                    Err(e) => (Err(e), s1),
                }
            } else {
                (Err(CacheError::UnknownCacheIndex), s)
            }
        },
    }
}

/// An index value that must not be negative.
pub open spec fn index_usize_spec(
    s: StoreView,
    value: CacheIndexValue,
    vars: Map<Seq<char>, VarDecl>,
    sizes: Map<Seq<char>, usize>,
    loops: Map<Seq<char>, i64>,
    specials: Option<Map<Seq<char>, i64>>,
) -> (Result<usize, CacheError>, StoreView) {
    let (r, s1) = index_value_spec(s, value, vars, sizes, loops, specials);
    match r {
        Ok(v) => if v < 0 {
            (Err(CacheError::NegativeCacheIndex), s1)
        } else {
            (Ok(v as usize), s1)
        },
        Err(e) => (Err(e), s1),
    }
}

/// An optional slice bound's value.
pub open spec fn opt_value_spec(
    s: StoreView,
    value: Option<CacheIndexValue>,
    vars: Map<Seq<char>, VarDecl>,
    sizes: Map<Seq<char>, usize>,
    loops: Map<Seq<char>, i64>,
    specials: Option<Map<Seq<char>, i64>>,
) -> (Result<Option<i64>, CacheError>, StoreView) {
    match value {
        None => (Ok(None), s),
        Some(v) => {
            let (r, s1) = index_value_spec(s, v, vars, sizes, loops, specials);
            match r {
                Ok(x) => (Ok(Some(x)), s1),
                Err(e) => (Err(e), s1),
            }
        },
    }
}

/// A tensor selection as values.
pub open spec fn full_range(n: usize) -> Seq<usize> {
    Seq::new(n as nat, |i: int| i as usize)
}

/// The positions an access picks along dimension `d` of `shape`: all of
/// them past the given indices, the named one (inside the dimension), or
/// the slice (inside the dimension).
pub open spec fn dim_sel_spec(
    s: StoreView,
    exprs: Seq<CacheIndexExpr>,
    shape: Seq<usize>,
    d: int,
    vars: Map<Seq<char>, VarDecl>,
    sizes: Map<Seq<char>, usize>,
    loops: Map<Seq<char>, i64>,
    specials: Option<Map<Seq<char>, i64>>,
) -> (Result<(Seq<usize>, bool), CacheError>, StoreView) {
    if d >= exprs.len() {
        (Ok((full_range(shape[d]), false)), s)
    } else {
        match exprs[d] {
            CacheIndexExpr::Single(v) => {
                let (r, s1) = index_usize_spec(s, v, vars, sizes, loops, specials);
                match r {
                    Err(e) => (Err(e), s1),
                    Ok(i) => if i >= shape[d] {
                        (Err(CacheError::IndexOutOfBounds), s1)
                    } else {
                        (Ok((seq![i], true)), s1)
                    },
                }
            },
            CacheIndexExpr::Slice { start, end } => {
                let (a, s1) = opt_value_spec(s, start, vars, sizes, loops, specials);
                match a {
                    Err(e) => (Err(e), s1),
                    Ok(st) => {
                        let (b, s2) = opt_value_spec(s1, end, vars, sizes, loops, specials);
                        match b {
                            Err(e) => (Err(e), s2),
                            Ok(en) => match slice_bounds_spec(shape[d], st, en, true) {
                                Err(e) => (Err(e), s2),
                                Ok((lo, hi)) => if hi > shape[d] {
                                    (Err(CacheError::IndexOutOfBounds), s2)
                                } else {
                                    (Ok((Seq::new((hi - lo) as nat, |i: int| (lo + i) as usize), false)), s2)
                                },
                            },
                        }
                    },
                }
            },
        }
    }
}

/// The selections of the first `n` dimensions, resolved in order.
pub open spec fn dims_sel_spec(
    s: StoreView,
    exprs: Seq<CacheIndexExpr>,
    shape: Seq<usize>,
    n: nat,
    vars: Map<Seq<char>, VarDecl>,
    sizes: Map<Seq<char>, usize>,
    loops: Map<Seq<char>, i64>,
    specials: Option<Map<Seq<char>, i64>>,
) -> (Result<Seq<(Seq<usize>, bool)>, CacheError>, StoreView)
    decreases n,
{
    if n == 0 {
        (Ok(Seq::empty()), s)
    } else {
        let (r, s1) = dims_sel_spec(s, exprs, shape, (n - 1) as nat, vars, sizes, loops, specials);
        match r {
            Err(e) => (Err(e), s1),
            Ok(prev) => {
                let (one, s2) = dim_sel_spec(s1, exprs, shape, n - 1, vars, sizes, loops, specials);
                match one {
                    Err(e) => (Err(e), s2),
                    Ok(x) => (Ok(prev.push(x)), s2),
                }
            },
        }
    }
}

/// The selection of every dimension of `shape` by an access's indices.
pub open spec fn tensor_indices_spec(
    s: StoreView,
    exprs: Seq<CacheIndexExpr>,
    shape: Seq<usize>,
    vars: Map<Seq<char>, VarDecl>,
    sizes: Map<Seq<char>, usize>,
    loops: Map<Seq<char>, i64>,
    specials: Option<Map<Seq<char>, i64>>,
) -> (Result<Seq<(Seq<usize>, bool)>, CacheError>, StoreView) {
    if exprs.len() > 0 && exprs.len() > shape.len() {
        (Err(CacheError::TooManyIndices), s)
    } else {
        dims_sel_spec(s, exprs, shape, shape.len(), vars, sizes, loops, specials)
    }
}

/// The wider of two growth counters.
pub open spec fn raise(count: usize, requested: usize) -> usize {
    if count < requested {
        requested
    } else {
        count
    }
}

proof fn lemma_auto_view_same(a: StringHashMap<AutoDimState>, b: StringHashMap<AutoDimState>)
    requires
        a@ == b@,
    ensures
        a@.map_values(|x: AutoDimState| x@) == b@.map_values(|x: AutoDimState| x@),
{
}

proof fn lemma_start_shape(auto: Map<Seq<char>, AutoDimState>, name: Seq<char>, decl: VarDecl, sizes: Map<Seq<char>, usize>, s: StoreView)
    requires
        s.auto == auto.map_values(|x: AutoDimState| x@),
    ensures
        persistent_shape_spec(auto, name, decl, sizes) == start_shape(s, name, decl, sizes),
{
    if decl.has_auto_dim_spec() && auto.contains_key(name) {
        assert(s.auto.contains_key(name));
        assert(s.auto[name] == auto[name]@);
        if auto[name].base_shape@.len() == auto[name].counts@.len() {
            assert(grown_shape(s.auto[name]) == Ok::<Seq<usize>, CacheError>(
                Seq::new(auto[name].base_shape@.len(), |i: int| sat_add(auto[name].base_shape@[i], auto[name].counts@[i])),
            ));
        }
    }
}

impl CacheStore {
    /// `get_or_init_persistent` seen through the store's values.
    pub fn init_persistent(&mut self, name: &str, decl: &VarDecl, model: &ModelLoader) -> (r: Result<
        TensorValue,
        CacheError,
    >)
        requires
            old(self).wf(),
        ensures
            final(self).wf(),
            final(self).tables == old(self).tables,
            final(self).auto_dims@ == old(self).auto_dims@,
            r matches Ok(t) ==> t.wf(),
            match get_or_init_spec(old(self).sv(), name@, *decl, model.sizes@) {
                (Ok(v), s1) => (r matches Ok(t) && t@ == v) && final(self).sv() == s1,
                (Err(e), s1) => r == Err::<TensorValue, CacheError>(e) && final(self).sv() == s1,
            },
    {
        let ghost before = self.persistent@;
        proof {
            lemma_start_shape(self.auto_dims@, name@, *decl, model.sizes@, self.sv());
        }
        let r = self.get_or_init_persistent(name, decl, model);
        proof {
            lemma_auto_view_same(self.auto_dims, old(self).auto_dims);
            if !before.contains_key(name@) && r is Ok {
                assert(persistent_view(self.persistent@) =~= persistent_view(before).insert(name@, r->Ok_0@)) by {
                    assert forall|k: Seq<char>| #[trigger] persistent_view(self.persistent@).contains_key(k) <==> persistent_view(before).insert(name@, r->Ok_0@).contains_key(k) by {
                        if k != name@ {
                            assert(self.persistent@.remove(name@).contains_key(k) == before.remove(name@).contains_key(k));
                        }
                    }
                    assert forall|k: Seq<char>| #[trigger] persistent_view(self.persistent@).contains_key(k) implies persistent_view(self.persistent@)[k] == persistent_view(before).insert(name@, r->Ok_0@)[k] by {
                        if k != name@ {
                            assert(self.persistent@.remove(name@)[k] == before.remove(name@)[k]);
                        }
                    }
                }
            }
        }
        r
    }

    /// The value of an index, as `index_value_spec` gives it.
    pub fn resolve_cache_index_value_with_map(
        &mut self,
        value: &CacheIndexValue,
        vars: &StringHashMap<VarDecl>,
        model: &ModelLoader,
        loop_vars: &StringHashMap<i64>,
        specials: Option<&StringHashMap<i64>>,
    ) -> (r: Result<i64, CacheError>)
        requires
            old(self).wf(),
        ensures
            final(self).wf(),
            final(self).tables == old(self).tables,
            final(self).auto_dims@ == old(self).auto_dims@,
            (r, final(self).sv()) == index_value_spec(
                old(self).sv(),
                *value,
                vars@,
                model.sizes@,
                loop_vars@,
                match specials {
                    Some(m) => Some(m@),
                    None => None,
                },
            ),
    {
        match value {
            CacheIndexValue::Lit(v) => Ok(*v),
            CacheIndexValue::Ident(name) => {
                if let Some(v) = model.sizes.get(name.as_str()) {
                    return Ok(*v as i64);
                }
                if let Some(m) = specials {
                    if let Some(v) = m.get(name.as_str()) {
                        return Ok(*v);
                    }
                }
                if let Some(v) = loop_vars.get(name.as_str()) {
                    return Ok(*v);
                }
                if let Some(decl) = vars.get(name.as_str()) {
                    if decl.kind == MemoryKind::Persistent {
                        let t = match self.init_persistent(name.as_str(), decl, model) {
                            Ok(t) => t,
                            Err(e) => return Err(e),
                        };
                        return scalar_to_i64(&t);
                    }
                }
                Err(CacheError::UnknownCacheIndex)
            },
        }
    }

    /// The value of an index that must not be negative.
    pub fn resolve_cache_index_value_usize_with_map(
        &mut self,
        value: &CacheIndexValue,
        vars: &StringHashMap<VarDecl>,
        model: &ModelLoader,
        loop_vars: &StringHashMap<i64>,
        specials: Option<&StringHashMap<i64>>,
    ) -> (r: Result<usize, CacheError>)
        requires
            old(self).wf(),
        ensures
            final(self).wf(),
            final(self).tables == old(self).tables,
            final(self).auto_dims@ == old(self).auto_dims@,
            (r, final(self).sv()) == index_usize_spec(
                old(self).sv(),
                *value,
                vars@,
                model.sizes@,
                loop_vars@,
                match specials {
                    Some(m) => Some(m@),
                    None => None,
                },
            ),
    {
        let v = match self.resolve_cache_index_value_with_map(value, vars, model, loop_vars, specials) {
            Ok(v) => v,
            Err(e) => return Err(e),
        };
        if v < 0 {
            return Err(CacheError::NegativeCacheIndex);
        }
        Ok(v as usize)
    }

    fn resolve_opt_value(
        &mut self,
        value: &Option<CacheIndexValue>,
        vars: &StringHashMap<VarDecl>,
        model: &ModelLoader,
        loop_vars: &StringHashMap<i64>,
        specials: Option<&StringHashMap<i64>>,
    ) -> (r: Result<Option<i64>, CacheError>)
        requires
            old(self).wf(),
        ensures
            final(self).wf(),
            final(self).tables == old(self).tables,
            final(self).auto_dims@ == old(self).auto_dims@,
            (r, final(self).sv()) == opt_value_spec(
                old(self).sv(),
                *value,
                vars@,
                model.sizes@,
                loop_vars@,
                match specials {
                    Some(m) => Some(m@),
                    None => None,
                },
            ),
    {
        match value {
            None => Ok(None),
            Some(v) => match self.resolve_cache_index_value_with_map(v, vars, model, loop_vars, specials) {
                Ok(x) => Ok(Some(x)),
                Err(e) => Err(e),
            },
        }
    }
}


/// Resolving one index of a cache-table access.
pub open spec fn resolve_one_spec(
    s: StoreView,
    e: CacheIndexExpr,
    vars: Map<Seq<char>, VarDecl>,
    sizes: Map<Seq<char>, usize>,
    loops: Map<Seq<char>, i64>,
) -> (Result<ResolvedCacheIndexExpr, CacheError>, StoreView) {
    match e {
        CacheIndexExpr::Single(v) => {
            let (r, s1) = index_usize_spec(s, v, vars, sizes, loops, None);
            match r {
                Ok(u) => (Ok(ResolvedCacheIndexExpr::Single(u)), s1),
                Err(err) => (Err(err), s1),
            }
        },
        CacheIndexExpr::Slice { start, end } => {
            let (a, s1) = opt_value_spec(s, start, vars, sizes, loops, None);
            match a {
                Err(err) => (Err(err), s1),
                Ok(st) => {
                    let (b, s2) = opt_value_spec(s1, end, vars, sizes, loops, None);
                    match b {
                        Err(err) => (Err(err), s2),
                        Ok(en) => (Ok(ResolvedCacheIndexExpr::Slice { start: st, end: en }), s2),
                    }
                },
            }
        },
    }
}

/// Resolving the first `n` indices of a cache-table access, in order.
pub open spec fn resolve_exprs_spec(
    s: StoreView,
    exprs: Seq<CacheIndexExpr>,
    n: nat,
    vars: Map<Seq<char>, VarDecl>,
    sizes: Map<Seq<char>, usize>,
    loops: Map<Seq<char>, i64>,
) -> (Result<Seq<ResolvedCacheIndexExpr>, CacheError>, StoreView)
    decreases n,
{
    if n == 0 {
        (Ok(Seq::empty()), s)
    } else {
        let (r, s1) = resolve_exprs_spec(s, exprs, (n - 1) as nat, vars, sizes, loops);
        match r {
            Err(e) => (Err(e), s1),
            Ok(prev) => {
                let (one, s2) = resolve_one_spec(s1, exprs[n - 1], vars, sizes, loops);
                match one {
                    Err(e) => (Err(e), s2),
                    Ok(x) => (Ok(prev.push(x)), s2),
                }
            },
        }
    }
}

/// The specials map of a variable's growth counters, by index name.
pub open spec fn opt_map(m: Option<&StringHashMap<i64>>) -> Option<Map<Seq<char>, i64>> {
    match m {
        Some(x) => Some(x@),
        None => None,
    }
}

proof fn lemma_dims_err(
    s: StoreView,
    exprs: Seq<CacheIndexExpr>,
    shape: Seq<usize>,
    i: nat,
    n: nat,
    vars: Map<Seq<char>, VarDecl>,
    sizes: Map<Seq<char>, usize>,
    loops: Map<Seq<char>, i64>,
    specials: Option<Map<Seq<char>, i64>>,
)
    requires
        i <= n,
        dims_sel_spec(s, exprs, shape, i, vars, sizes, loops, specials).0 is Err,
    ensures
        dims_sel_spec(s, exprs, shape, n, vars, sizes, loops, specials) == dims_sel_spec(s, exprs, shape, i, vars, sizes, loops, specials),
    decreases n - i,
{
    if i < n {
        lemma_dims_err(s, exprs, shape, i, (n - 1) as nat, vars, sizes, loops, specials);
    }
}

proof fn lemma_resolve_err(
    s: StoreView,
    exprs: Seq<CacheIndexExpr>,
    i: nat,
    n: nat,
    vars: Map<Seq<char>, VarDecl>,
    sizes: Map<Seq<char>, usize>,
    loops: Map<Seq<char>, i64>,
)
    requires
        i <= n,
        resolve_exprs_spec(s, exprs, i, vars, sizes, loops).0 is Err,
    ensures
        resolve_exprs_spec(s, exprs, n, vars, sizes, loops) == resolve_exprs_spec(s, exprs, i, vars, sizes, loops),
    decreases n - i,
{
    if i < n {
        lemma_resolve_err(s, exprs, i, (n - 1) as nat, vars, sizes, loops);
    }
}

impl CacheStore {
    fn dim_selection(
        &mut self,
        indices: &[CacheIndexExpr],
        shape: &[usize],
        d: usize,
        vars: &StringHashMap<VarDecl>,
        model: &ModelLoader,
        loop_vars: &StringHashMap<i64>,
        specials: Option<&StringHashMap<i64>>,
    ) -> (r: Result<TensorIndexSelection, CacheError>)
        requires
            old(self).wf(),
            d < shape@.len(),
        ensures
            final(self).wf(),
            final(self).tables == old(self).tables,
            final(self).auto_dims@ == old(self).auto_dims@,
            match dim_sel_spec(old(self).sv(), indices@, shape@, d as int, vars@, model.sizes@, loop_vars@, opt_map(specials)) {
                (Ok(x), s1) => (r matches Ok(sel) && (sel.indices@, sel.is_scalar) == x) && final(self).sv() == s1,
                (Err(e), s1) => r == Err::<TensorIndexSelection, CacheError>(e) && final(self).sv() == s1,
            },
    {
        if d >= indices.len() {
            let v = range_vec(0, shape[d]);
            assert(v@ =~= full_range(shape@[d as int]));
            return Ok(TensorIndexSelection { indices: v, is_scalar: false });
        }
        match &indices[d] {
            CacheIndexExpr::Single(value) => {
                let i = match self.resolve_cache_index_value_usize_with_map(value, vars, model, loop_vars, specials) {
                    Ok(i) => i,
                    Err(e) => return Err(e),
                };
                if i >= shape[d] {
                    return Err(CacheError::IndexOutOfBounds);
                }
                let mut v: Vec<usize> = Vec::new();
                v.push(i);
                assert(v@ =~= seq![i]);
                Ok(TensorIndexSelection { indices: v, is_scalar: true })
            },
            CacheIndexExpr::Slice { start, end } => {
                let st = match self.resolve_opt_value(start, vars, model, loop_vars, specials) {
                    Ok(x) => x,
                    Err(e) => return Err(e),
                };
                let en = match self.resolve_opt_value(end, vars, model, loop_vars, specials) {
                    Ok(x) => x,
                    Err(e) => return Err(e),
                };
                let (lo, hi) = match resolve_slice_bounds(shape[d], st, en, true) {
                    Ok(b) => b,
                    Err(e) => return Err(e),
                };
                if hi > shape[d] {
                    return Err(CacheError::IndexOutOfBounds);
                }
                let v = range_vec(lo, hi);
                Ok(TensorIndexSelection { indices: v, is_scalar: false })
            },
        }
    }

    /// The selection of every dimension of `shape` by an access's indices,
    /// as `tensor_indices_spec` gives it.
    pub fn resolve_tensor_indices(
        &mut self,
        indices: &[CacheIndexExpr],
        shape: &[usize],
        vars: &StringHashMap<VarDecl>,
        model: &ModelLoader,
        loop_vars: &StringHashMap<i64>,
        specials: Option<&StringHashMap<i64>>,
    ) -> (r: Result<Vec<TensorIndexSelection>, CacheError>)
        requires
            old(self).wf(),
        ensures
            final(self).wf(),
            final(self).tables == old(self).tables,
            final(self).auto_dims@ == old(self).auto_dims@,
            match tensor_indices_spec(old(self).sv(), indices@, shape@, vars@, model.sizes@, loop_vars@, opt_map(specials)) {
                (Ok(x), s1) => (r matches Ok(v) && tsel_view(v@) == x) && final(self).sv() == s1,
                (Err(e), s1) => r == Err::<Vec<TensorIndexSelection>, CacheError>(e) && final(self).sv() == s1,
            },
    {
        if indices.len() > 0 && indices.len() > shape.len() {
            return Err(CacheError::TooManyIndices);
        }
        let mut sels: Vec<TensorIndexSelection> = Vec::new();
        let mut d: usize = 0;
        assert(tsel_view(sels@) =~= Seq::<(Seq<usize>, bool)>::empty());
        while d < shape.len()
            invariant
                d <= shape@.len(),
                !(indices@.len() > 0 && indices@.len() > shape@.len()),
                self.wf(),
                self.tables == old(self).tables,
                self.auto_dims@ == old(self).auto_dims@,
                (Ok::<Seq<(Seq<usize>, bool)>, CacheError>(tsel_view(sels@)), self.sv()) == dims_sel_spec(
                    old(self).sv(),
                    indices@,
                    shape@,
                    d as nat,
                    vars@,
                    model.sizes@,
                    loop_vars@,
                    opt_map(specials),
                ),
            decreases shape@.len() - d,
        {
            let one = match self.dim_selection(indices, shape, d, vars, model, loop_vars, specials) {
                Ok(x) => x,
                Err(e) => {
                    proof {
                        assert(dims_sel_spec(old(self).sv(), indices@, shape@, (d + 1) as nat, vars@, model.sizes@, loop_vars@, opt_map(specials))
                            == (Err::<Seq<(Seq<usize>, bool)>, CacheError>(e), self.sv()));
                        lemma_dims_err(old(self).sv(), indices@, shape@, (d + 1) as nat, shape@.len(), vars@, model.sizes@, loop_vars@, opt_map(specials));
                        assert(tensor_indices_spec(old(self).sv(), indices@, shape@, vars@, model.sizes@, loop_vars@, opt_map(specials))
                            == (Err::<Seq<(Seq<usize>, bool)>, CacheError>(e), self.sv()));
                    }
                    return Err(e);
                },
            };
            sels.push(one);
            d = d + 1;
            assert(tsel_view(sels@) =~= dims_sel_spec(
                old(self).sv(),
                indices@,
                shape@,
                (d - 1) as nat,
                vars@,
                model.sizes@,
                loop_vars@,
                opt_map(specials),
            ).0->Ok_0.push((one.indices@, one.is_scalar)));
        }
        Ok(sels)
    }

    fn resolve_one(
        &mut self,
        e: &CacheIndexExpr,
        vars: &StringHashMap<VarDecl>,
        model: &ModelLoader,
        loop_vars: &StringHashMap<i64>,
    ) -> (r: Result<ResolvedCacheIndexExpr, CacheError>)
        requires
            old(self).wf(),
        ensures
            final(self).wf(),
            final(self).tables == old(self).tables,
            final(self).auto_dims@ == old(self).auto_dims@,
            (r, final(self).sv()) == resolve_one_spec(old(self).sv(), *e, vars@, model.sizes@, loop_vars@),
    {
        match e {
            CacheIndexExpr::Single(v) => match self.resolve_cache_index_value_usize_with_map(v, vars, model, loop_vars, None) {
                Ok(u) => Ok(ResolvedCacheIndexExpr::Single(u)),
                Err(err) => Err(err),
            },
            CacheIndexExpr::Slice { start, end } => {
                let st = match self.resolve_opt_value(start, vars, model, loop_vars, None) {
                    Ok(x) => x,
                    Err(err) => return Err(err),
                };
                let en = match self.resolve_opt_value(end, vars, model, loop_vars, None) {
                    Ok(x) => x,
                    Err(err) => return Err(err),
                };
                Ok(ResolvedCacheIndexExpr::Slice { start: st, end: en })
            },
        }
    }

    /// The indices of a cache-table access with their names resolved, in
    /// order, as `resolve_exprs_spec` gives them.
    pub fn resolve_cache_index_exprs(
        &mut self,
        access: &CacheAccess,
        vars: &StringHashMap<VarDecl>,
        model: &ModelLoader,
        loop_vars: &StringHashMap<i64>,
    ) -> (r: Result<Vec<ResolvedCacheIndexExpr>, CacheError>)
        requires
            old(self).wf(),
        ensures
            final(self).wf(),
            final(self).tables == old(self).tables,
            final(self).auto_dims@ == old(self).auto_dims@,
            match resolve_exprs_spec(old(self).sv(), access.indices@, access.indices@.len(), vars@, model.sizes@, loop_vars@) {
                (Ok(x), s1) => (r matches Ok(v) && v@ == x) && final(self).sv() == s1,
                (Err(e), s1) => r == Err::<Vec<ResolvedCacheIndexExpr>, CacheError>(e) && final(self).sv() == s1,
            },
    {
        let mut out: Vec<ResolvedCacheIndexExpr> = Vec::new();
        let mut k: usize = 0;
        let ghost n = access.indices@.len();
        while k < access.indices.len()
            invariant
                k <= access.indices@.len(),
                n == access.indices@.len(),
                self.wf(),
                self.tables == old(self).tables,
                self.auto_dims@ == old(self).auto_dims@,
                (Ok::<Seq<ResolvedCacheIndexExpr>, CacheError>(out@), self.sv()) == resolve_exprs_spec(
                    old(self).sv(),
                    access.indices@,
                    k as nat,
                    vars@,
                    model.sizes@,
                    loop_vars@,
                ),
            decreases access.indices@.len() - k,
        {
            let one = match self.resolve_one(&access.indices[k], vars, model, loop_vars) {
                Ok(x) => x,
                Err(e) => {
                    proof {
                        assert(resolve_exprs_spec(old(self).sv(), access.indices@, (k + 1) as nat, vars@, model.sizes@, loop_vars@)
                            == (Err::<Seq<ResolvedCacheIndexExpr>, CacheError>(e), self.sv()));
                        lemma_resolve_err(old(self).sv(), access.indices@, (k + 1) as nat, n, vars@, model.sizes@, loop_vars@);
                    }
                    return Err(e);
                },
            };
            out.push(one);
            k = k + 1;
        }
        Ok(out)
    }
}


/// A zero tensor of the given type and shape.
pub open spec fn zero_view(dtype: DType, shape: Seq<usize>) -> TensorView {
    TensorView { dtype, shape, data: Seq::new(storage_units(dtype, numel(shape)), |i: int| 0u64) }
}

/// Bring the persistent value under `name` to `shape`: a missing one
/// starts as zeros, a smaller one is grown with zeros, and its type must
/// stay the declared one.
pub open spec fn ensure_shape_spec(s: StoreView, name: Seq<char>, decl: VarDecl, shape: Seq<usize>) -> (
    Result<(), CacheError>,
    StoreView,
) {
    if !s.persistent.contains_key(name) {
        if !shape_fits(shape) {
            (Err(CacheError::ShapeTooLarge), s)
        } else {
            (Ok(()), with_persistent(s, name, zero_view(decl.dtype, shape)))
        }
    } else {
        let cur = s.persistent[name];
        if cur.shape == shape {
            (Ok(()), s)
        } else {
            match expand_spec(cur, shape) {
                Err(e) => (Err(e), s),
                Ok(t) => if t.dtype != decl.dtype {
                    (Err(CacheError::ExpandDtypeMismatch), s)
                } else {
                    (Ok(()), with_persistent(s, name, t))
                },
            }
        }
    }
}

/// The positions an access names, all single, resolved in order.
pub open spec fn requested_spec(
    s: StoreView,
    exprs: Seq<CacheIndexExpr>,
    n: nat,
    vars: Map<Seq<char>, VarDecl>,
    sizes: Map<Seq<char>, usize>,
    loops: Map<Seq<char>, i64>,
) -> (Result<Seq<usize>, CacheError>, StoreView)
    decreases n,
{
    if n == 0 {
        (Ok(Seq::empty()), s)
    } else {
        let (r, s1) = requested_spec(s, exprs, (n - 1) as nat, vars, sizes, loops);
        match r {
            Err(e) => (Err(e), s1),
            Ok(prev) => match exprs[n - 1] {
                CacheIndexExpr::Single(v) => {
                    let (one, s2) = index_usize_spec(s1, v, vars, sizes, loops, None);
                    match one {
                        Err(e) => (Err(e), s2),
                        Ok(u) => (Ok(prev.push(u)), s2),
                    }
                },
                CacheIndexExpr::Slice { .. } => (Err(CacheError::ScalarIndicesRequired), s1),
            },
        }
    }
}

/// Each counter raised to the position requested for it.
pub open spec fn raised_counts(counts: Seq<usize>, req: Seq<usize>) -> Seq<usize> {
    Seq::new(counts.len(), |i: int| if i < req.len() { raise(counts[i], req[i]) } else { counts[i] })
}

/// A requested position lies past its dimension's fixed limit.
pub open spec fn exceeds_limit(max: Seq<Option<usize>>, req: Seq<usize>) -> bool {
    exists|i: int| 0 <= i < req.len() && i < max.len() && #[trigger] max[i] is Some && req[i] > max[i]->0
}

/// Grow a variable to hold the positions an access names: every index must
/// be single and within its fixed limit; each counter is raised to its
/// position, and the persistent value is brought to the grown shape.
pub open spec fn update_auto_spec(
    s: StoreView,
    access: CacheAccess,
    decl: VarDecl,
    vars: Map<Seq<char>, VarDecl>,
    sizes: Map<Seq<char>, usize>,
    loops: Map<Seq<char>, i64>,
) -> (Result<(), CacheError>, StoreView) {
    let base = access.base@;
    let (rq, s1) = requested_spec(s, access.indices@, access.indices@.len(), vars, sizes, loops);
    match rq {
        Err(e) => (Err(e), s1),
        Ok(req) => if !s1.auto.contains_key(base) {
            (Err(CacheError::MissingAutoDimState), s1)
        } else {
            let a = s1.auto[base];
            if req.len() > a.counts.len() {
                (Err(CacheError::TooManyIndices), s1)
            } else if exceeds_limit(a.max, req) {
                (Err(CacheError::ExceedsFixedSize), s1)
            } else {
                let a2 = AutoView { base: a.base, counts: raised_counts(a.counts, req), max: a.max };
                let s2 = StoreView { persistent: s1.persistent, auto: s1.auto.insert(base, a2) };
                match grown_shape(a2) {
                    Err(e) => (Err(e), s2),
                    Ok(shape) => ensure_shape_spec(s2, base, decl, shape),
                }
            }
        },
    }
}


proof fn lemma_persistent_insert(m: Map<Seq<char>, TensorValue>, k: Seq<char>, v: TensorValue)
    ensures
        persistent_view(m.insert(k, v)) == persistent_view(m).insert(k, v@),
{
    assert(persistent_view(m.insert(k, v)) =~= persistent_view(m).insert(k, v@));
}

proof fn lemma_auto_insert(m: Map<Seq<char>, AutoDimState>, k: Seq<char>, v: AutoDimState)
    ensures
        m.insert(k, v).map_values(|x: AutoDimState| x@) == m.map_values(|x: AutoDimState| x@).insert(k, v@),
{
    assert(m.insert(k, v).map_values(|x: AutoDimState| x@) =~= m.map_values(|x: AutoDimState| x@).insert(k, v@));
}

fn copy_limits(v: &Vec<Option<usize>>) -> (r: Vec<Option<usize>>)
    ensures
        r@ == v@,
{
    let mut r: Vec<Option<usize>> = Vec::new();
    let mut i: usize = 0;
    while i < v.len()
        invariant
            i <= v@.len(),
            r@ == v@.subrange(0, i as int),
        decreases v.len() - i,
    {
        r.push(v[i]);
        i = i + 1;
        assert(r@ =~= v@.subrange(0, i as int));
    }
    assert(r@ =~= v@);
    r
}

impl CacheStore {
    /// Store `value` under `name`, seen through the store's values.
    pub fn put_persistent(&mut self, name: &str, value: TensorValue)
        requires
            old(self).wf(),
            value.wf(),
        ensures
            final(self).wf(),
            final(self).tables == old(self).tables,
            final(self).auto_dims@ == old(self).auto_dims@,
            final(self).sv() == with_persistent(old(self).sv(), name@, value@),
    {
        let ghost m = self.persistent@;
        let ghost v = value;
        self.set_persistent(name, value);
        proof {
            lemma_persistent_insert(m, name@, v);
            lemma_auto_view_same(self.auto_dims, old(self).auto_dims);
        }
    }

    /// Bring the persistent value under `name` to `shape`, as
    /// `ensure_shape_spec` says.
    pub fn ensure_persistent_shape(&mut self, name: &str, decl: &VarDecl, shape: &[usize]) -> (r: Result<(), CacheError>)
        requires
            old(self).wf(),
        ensures
            final(self).wf(),
            final(self).tables == old(self).tables,
            final(self).auto_dims@ == old(self).auto_dims@,
            (r, final(self).sv()) == ensure_shape_spec(old(self).sv(), name@, *decl, shape@),
    {
        let resized = match self.persistent.get(name) {
            None => {
                let sv = copy_usizes(shape);
                if !shape_fits_exec(&sv) {
                    return Err(CacheError::ShapeTooLarge);
                }
                let z = TensorValue::zeros(decl.dtype, shape);
                assert(z.data@ =~= Seq::new(storage_units(decl.dtype, numel(shape@)), |i: int| 0u64));
                z
            },
            Some(cur) => {
                if crate::cache_table::same_key(cur.shape.as_slice(), shape) {
                    return Ok(());
                }
                let t = match expand_tensor_value(cur, shape) {
                    Ok(t) => t,
                    Err(e) => return Err(e),
                };
                if t.dtype != decl.dtype {
                    return Err(CacheError::ExpandDtypeMismatch);
                }
                t
            },
        };
        self.put_persistent(name, resized);
        Ok(())
    }
}


proof fn lemma_requested_err(
    s: StoreView,
    exprs: Seq<CacheIndexExpr>,
    i: nat,
    n: nat,
    vars: Map<Seq<char>, VarDecl>,
    sizes: Map<Seq<char>, usize>,
    loops: Map<Seq<char>, i64>,
)
    requires
        i <= n,
        requested_spec(s, exprs, i, vars, sizes, loops).0 is Err,
    ensures
        requested_spec(s, exprs, n, vars, sizes, loops) == requested_spec(s, exprs, i, vars, sizes, loops),
    decreases n - i,
{
    if i < n {
        lemma_requested_err(s, exprs, i, (n - 1) as nat, vars, sizes, loops);
    }
}

impl CacheStore {
    fn requested_positions(
        &mut self,
        access: &CacheAccess,
        vars: &StringHashMap<VarDecl>,
        model: &ModelLoader,
        loop_vars: &StringHashMap<i64>,
    ) -> (r: Result<Vec<usize>, CacheError>)
        requires
            old(self).wf(),
        ensures
            final(self).wf(),
            final(self).tables == old(self).tables,
            final(self).auto_dims@ == old(self).auto_dims@,
            match requested_spec(old(self).sv(), access.indices@, access.indices@.len(), vars@, model.sizes@, loop_vars@) {
                (Ok(x), s1) => (r matches Ok(v) && v@ == x) && final(self).sv() == s1,
                (Err(e), s1) => r == Err::<Vec<usize>, CacheError>(e) && final(self).sv() == s1,
            },
    {
        let mut req: Vec<usize> = Vec::new();
        let mut k: usize = 0;
        let ghost n = access.indices@.len();
        while k < access.indices.len()
            invariant
                k <= n == access.indices@.len(),
                self.wf(),
                self.tables == old(self).tables,
                self.auto_dims@ == old(self).auto_dims@,
                (Ok::<Seq<usize>, CacheError>(req@), self.sv()) == requested_spec(
                    old(self).sv(),
                    access.indices@,
                    k as nat,
                    vars@,
                    model.sizes@,
                    loop_vars@,
                ),
            decreases n - k,
        {
            match &access.indices[k] {
                CacheIndexExpr::Single(v) => {
                    match self.resolve_cache_index_value_usize_with_map(v, vars, model, loop_vars, None) {
                        Ok(u) => {
                            req.push(u);
                        },
                        Err(e) => {
                            proof {
                                lemma_requested_err(old(self).sv(), access.indices@, (k + 1) as nat, n, vars@, model.sizes@, loop_vars@);
                            }
                            return Err(e);
                        },
                    }
                },
                CacheIndexExpr::Slice { .. } => {
                    proof {
                        lemma_requested_err(old(self).sv(), access.indices@, (k + 1) as nat, n, vars@, model.sizes@, loop_vars@);
                    }
                    return Err(CacheError::ScalarIndicesRequired);
                },
            }
            k = k + 1;
        }
        Ok(req)
    }

    /// Grow a variable to hold the positions an access names, as
    /// `update_auto_spec` says.
    #[verifier::loop_isolation(false)]
    pub fn update_auto_dim_counts_from_access(
        &mut self,
        access: &CacheAccess,
        decl: &VarDecl,
        vars: &StringHashMap<VarDecl>,
        model: &ModelLoader,
        loop_vars: &StringHashMap<i64>,
    ) -> (r: Result<(), CacheError>)
        requires
            old(self).wf(),
        ensures
            final(self).wf(),
            final(self).tables == old(self).tables,
            (r, final(self).sv()) == update_auto_spec(old(self).sv(), *access, *decl, vars@, model.sizes@, loop_vars@),
    {
        let req = match self.requested_positions(access, vars, model, loop_vars) {
            Ok(v) => v,
            Err(e) => return Err(e),
        };
        let ghost s1 = self.sv();
        let state = match self.auto_dims.get(access.base.as_str()) {
            Some(st) => st,
            None => return Err(CacheError::MissingAutoDimState),
        };
        assert(s1.auto[access.base@] == state@);
        if req.len() > state.counts.len() {
            return Err(CacheError::TooManyIndices);
        }
        let mut i: usize = 0;
        while i < req.len()
            invariant
                i <= req@.len() <= state.counts@.len(),
                forall|j: int| 0 <= j < i && j < state.max@.len() && #[trigger] state.max@[j] is Some ==> req@[j] <= state.max@[j]->0,
            decreases req@.len() - i,
        {
            if i < state.max.len() {
                if let Some(limit) = state.max[i] {
                    if req[i] > limit {
                        assert(state.max@[i as int] is Some);
                        return Err(CacheError::ExceedsFixedSize);
                    }
                }
            }
            i = i + 1;
        }
        let mut counts: Vec<usize> = Vec::new();
        let mut c: usize = 0;
        while c < state.counts.len()
            invariant
                c <= state.counts@.len(),
                req@.len() <= state.counts@.len(),
                counts@ == raised_counts(state.counts@, req@).subrange(0, c as int),
            decreases state.counts@.len() - c,
        {
            let v = if c < req.len() {
                if state.counts[c] < req[c] {
                    req[c]
                } else {
                    state.counts[c]
                }
            } else {
                state.counts[c]
            };
            counts.push(v);
            c = c + 1;
            assert(counts@ =~= raised_counts(state.counts@, req@).subrange(0, c as int));
        }
        assert(counts@ =~= raised_counts(state.counts@, req@));
        let base_shape = copy_usizes(state.base_shape.as_slice());
        let max = copy_limits(&state.max);
        let shape = auto_dim_shape(base_shape.as_slice(), counts.as_slice());
        let new_state = AutoDimState { base_shape, counts, max };
        let ghost autos = self.auto_dims@;
        self.auto_dims.insert(access.base.clone(), new_state);
        proof {
            lemma_auto_insert(autos, access.base@, new_state);
        }
        let shape = match shape {
            Ok(v) => v,
            Err(e) => return Err(e),
        };
        self.ensure_persistent_shape(access.base.as_str(), decl, shape.as_slice())
    }
}


/// The growth counters of a variable by index name, a later name winning.
pub open spec fn specials_spec(names: Seq<String>, counts: Seq<usize>, n: nat) -> Map<Seq<char>, i64>
    decreases n,
{
    if n == 0 {
        Map::empty()
    } else {
        specials_spec(names, counts, (n - 1) as nat).insert(names[n - 1]@, counts[n - 1] as i64)
    }
}

/// The growth counters that index names of `decl` stand for in an access
/// to `base`.
pub open spec fn growth_specials(s: StoreView, decl: VarDecl, base: Seq<char>) -> Map<Seq<char>, i64> {
    if s.auto.contains_key(base) {
        let a = s.auto[base];
        let n = if decl.auto_dim@.len() < a.counts.len() {
            decl.auto_dim@.len()
        } else {
            a.counts.len()
        };
        specials_spec(decl.auto_dim@, a.counts, n)
    } else {
        Map::empty()
    }
}

/// Every index names a single position.
pub open spec fn all_single(exprs: Seq<CacheIndexExpr>) -> bool {
    forall|i: int| 0 <= i < exprs.len() ==> #[trigger] exprs[i] is Single
}

/// Before a growing variable is read whole or sliced, its value is brought
/// to the grown shape.
pub open spec fn pre_read_spec(s: StoreView, base: Seq<char>, decl: VarDecl) -> (Result<(), CacheError>, StoreView) {
    if decl.has_auto_dim_spec() {
        if !s.auto.contains_key(base) {
            (Err(CacheError::MissingAutoDimState), s)
        } else {
            match grown_shape(s.auto[base]) {
                Err(e) => (Err(e), s),
                Ok(sh) => ensure_shape_spec(s, base, decl, sh),
            }
        }
    } else {
        (Ok(()), s)
    }
}

/// Reading a cached (non-table) variable: indices only for a growing
/// variable; single positions grow it and read it whole; otherwise the value
/// at its grown shape, sliced by the indices.
pub open spec fn read_value_spec(
    s: StoreView,
    access: CacheAccess,
    decl: VarDecl,
    vars: Map<Seq<char>, VarDecl>,
    sizes: Map<Seq<char>, usize>,
    loops: Map<Seq<char>, i64>,
) -> (Result<TensorView, CacheError>, StoreView) {
    let base = access.base@;
    if access.bracketed && !decl.has_auto_dim_spec() {
        (Err(CacheError::IndexedAccessUnsupported), s)
    } else if decl.has_auto_dim_spec() && access.bracketed && access.indices@.len() > 0 && all_single(access.indices@) {
        let (u, s1) = update_auto_spec(s, access, decl, vars, sizes, loops);
        match u {
            Err(e) => (Err(e), s1),
            Ok(_) => get_or_init_spec(s1, base, decl, sizes),
        }
    } else {
        let (pre, s1) = pre_read_spec(s, base, decl);
        match pre {
            Err(e) => (Err(e), s1),
            Ok(_) => {
                let (h, s2) = get_or_init_spec(s1, base, decl, sizes);
                match h {
                    Err(e) => (Err(e), s2),
                    Ok(host) => if !access.bracketed || access.indices@.len() == 0 {
                        (Ok(host), s2)
                    } else {
                        let (sel, s3) = tensor_indices_spec(
                            s2,
                            access.indices@,
                            host.shape,
                            vars,
                            sizes,
                            loops,
                            Some(growth_specials(s2, decl, base)),
                        );
                        match sel {
                            Err(e) => (Err(e), s3),
                            Ok(sv) => (slice_spec(host, sv), s3),
                        }
                    },
                }
            },
        }
    }
}

/// Writing `src` to a cached (non-table) variable: indices only for a
/// growing variable, and then only single positions, which grow it; a
/// growing variable takes only values of its grown shape.
pub open spec fn write_value_spec(
    s: StoreView,
    src: TensorView,
    access: CacheAccess,
    decl: VarDecl,
    vars: Map<Seq<char>, VarDecl>,
    sizes: Map<Seq<char>, usize>,
    loops: Map<Seq<char>, i64>,
) -> (Result<(), CacheError>, StoreView) {
    let base = access.base@;
    let indexed = access.bracketed && access.indices@.len() > 0;
    if indexed && !decl.has_auto_dim_spec() {
        (Err(CacheError::IndexedWriteUnsupported), s)
    } else if decl.has_auto_dim_spec() {
        let (u, s1) = if indexed {
            if !all_single(access.indices@) {
                (Err(CacheError::WriteNeedsScalarIndices), s)
            } else {
                update_auto_spec(s, access, decl, vars, sizes, loops)
            }
        } else {
            (Ok(()), s)
        };
        match u {
            Err(e) => (Err(e), s1),
            Ok(_) => if !s1.auto.contains_key(base) {
                (Err(CacheError::MissingAutoDimState), s1)
            } else {
                match grown_shape(s1.auto[base]) {
                    Err(e) => (Err(e), s1),
                    Ok(sh) => if src.shape != sh {
                        (Err(CacheError::WriteShapeMismatch), s1)
                    } else {
                        (Ok(()), with_persistent(s1, base, src))
                    },
                }
            },
        }
    } else {
        (Ok(()), with_persistent(s, base, src))
    }
}

/// Resetting a cached (non-table) variable: a growing one loses its growth,
/// and the value starts over at the declared dimensions.
pub open spec fn reset_value_spec(s: StoreView, access: CacheAccess, decl: VarDecl, sizes: Map<Seq<char>, usize>) -> (
    Result<(), CacheError>,
    StoreView,
) {
    let base = access.base@;
    let (a, s1) = if decl.has_auto_dim_spec() && s.auto.contains_key(base) {
        let st = s.auto[base];
        let st2 = AutoView { base: st.base, counts: Seq::new(st.counts.len(), |i: int| 0usize), max: st.max };
        let s0 = StoreView { persistent: s.persistent, auto: s.auto.insert(base, st2) };
        match grown_shape(st2) {
            Err(e) => (Err(e), s0),
            Ok(sh) => ensure_shape_spec(s0, base, decl, sh),
        }
    } else {
        (Ok(()), s)
    };
    match a {
        Err(e) => (Err(e), s1),
        Ok(_) => if exists|i: int| 0 <= i < decl.dims@.len() && #[trigger] dim_value_spec(sizes, decl.dims@[i]@) is Err {
            (Err(CacheError::UnknownSize), s1)
        } else {
            match initial_value_spec(decl, Seq::new(decl.dims@.len(), |i: int| dim_value_spec(sizes, decl.dims@[i]@)->Ok_0)) {
                Err(e) => (Err(e), s1),
                Ok(v) => (Ok(()), with_persistent(s1, base, v)),
            }
        },
    }
}

proof fn lemma_dims_in_shape(
    s: StoreView,
    exprs: Seq<CacheIndexExpr>,
    shape: Seq<usize>,
    n: nat,
    vars: Map<Seq<char>, VarDecl>,
    sizes: Map<Seq<char>, usize>,
    loops: Map<Seq<char>, i64>,
    specials: Option<Map<Seq<char>, i64>>,
)
    requires
        n <= shape.len(),
        dims_sel_spec(s, exprs, shape, n, vars, sizes, loops, specials).0 is Ok,
    ensures
        ({
            let sv = dims_sel_spec(s, exprs, shape, n, vars, sizes, loops, specials).0->Ok_0;
            &&& sv.len() == n
            &&& forall|d: int, i: int| 0 <= d < n && 0 <= i < sv[d].0.len() ==> #[trigger] sv[d].0[i] < shape[d]
        }),
    decreases n,
{
    if n > 0 {
        lemma_dims_in_shape(s, exprs, shape, (n - 1) as nat, vars, sizes, loops, specials);
    }
}


impl CacheStore {
    fn growth_map(&self, decl: &VarDecl, base: &str) -> (r: StringHashMap<i64>)
        ensures
            r@ == growth_specials(self.sv(), *decl, base@),
    {
        let mut m: StringHashMap<i64> = StringHashMap::new();
        match self.auto_dims.get(base) {
            None => {
                assert(m@ =~= Map::<Seq<char>, i64>::empty());
            },
            Some(state) => {
                assert(self.sv().auto[base@] == state@);
                let n = if decl.auto_dim.len() < state.counts.len() {
                    decl.auto_dim.len()
                } else {
                    state.counts.len()
                };
                let mut i: usize = 0;
                assert(m@ =~= specials_spec(decl.auto_dim@, state.counts@, 0));
                while i < n
                    invariant
                        i <= n <= decl.auto_dim@.len(),
                        n <= state.counts@.len(),
                        m@ == specials_spec(decl.auto_dim@, state.counts@, i as nat),
                    decreases n - i,
                {
                    m.insert(decl.auto_dim[i].clone(), state.counts[i] as i64);
                    i = i + 1;
                }
            },
        }
        m
    }

    fn pre_read(&mut self, base: &str, decl: &VarDecl) -> (r: Result<(), CacheError>)
        requires
            old(self).wf(),
        ensures
            final(self).wf(),
            final(self).tables == old(self).tables,
            final(self).auto_dims@ == old(self).auto_dims@,
            (r, final(self).sv()) == pre_read_spec(old(self).sv(), base@, *decl),
    {
        if !decl.has_auto_dim() {
            return Ok(());
        }
        let shape = match self.auto_dims.get(base) {
            None => return Err(CacheError::MissingAutoDimState),
            Some(state) => {
                assert(self.sv().auto[base@] == state@);
                match auto_dim_shape(state.base_shape.as_slice(), state.counts.as_slice()) {
                    Ok(v) => v,
                    Err(e) => return Err(e),
                }
            },
        };
        self.ensure_persistent_shape(base, decl, shape.as_slice())
    }

    /// Read a cached (non-table) variable, as `read_value_spec` says.
    pub fn read_cache_value(
        &mut self,
        access: &CacheAccess,
        decl: &VarDecl,
        vars: &StringHashMap<VarDecl>,
        model: &ModelLoader,
        loop_vars: &StringHashMap<i64>,
    ) -> (r: Result<TensorValue, CacheError>)
        requires
            old(self).wf(),
        ensures
            final(self).wf(),
            final(self).tables == old(self).tables,
            r matches Ok(t) ==> t.wf(),
            match read_value_spec(old(self).sv(), *access, *decl, vars@, model.sizes@, loop_vars@) {
                (Ok(v), s1) => (r matches Ok(t) && t@ == v) && final(self).sv() == s1,
                (Err(e), s1) => r == Err::<TensorValue, CacheError>(e) && final(self).sv() == s1,
            },
    {
        let base = access.base.as_str();
        if access.bracketed && !decl.has_auto_dim() {
            return Err(CacheError::IndexedAccessUnsupported);
        }
        if decl.has_auto_dim() && access.bracketed && access.indices.len() > 0 && all_single_exec(&access.indices) {
            match self.update_auto_dim_counts_from_access(access, decl, vars, model, loop_vars) {
                Ok(()) => {},
                Err(e) => return Err(e),
            }
            return self.init_persistent(base, decl, model);
        }
        match self.pre_read(base, decl) {
            Ok(()) => {},
            Err(e) => return Err(e),
        }
        let host = match self.init_persistent(base, decl, model) {
            Ok(t) => t,
            Err(e) => return Err(e),
        };
        if !access.bracketed || access.indices.len() == 0 {
            return Ok(host);
        }
        let specials = self.growth_map(decl, base);
        let ghost s2 = self.sv();
        let sels = match self.resolve_tensor_indices(
            access.indices.as_slice(),
            host.shape.as_slice(),
            vars,
            model,
            loop_vars,
            Some(&specials),
        ) {
            Ok(v) => v,
            Err(e) => return Err(e),
        };
        proof {
            lemma_dims_in_shape(
                s2,
                access.indices@,
                host.shape@,
                host.shape@.len(),
                vars@,
                model.sizes@,
                loop_vars@,
                Some(specials@),
            );
            assert(!packed(host.dtype) ==> host.data@.len() == numel(host.shape@));
            crate::cache_utils::lemma_offsets_in_bounds(crate::cache_utils::tsel_view(sels@), host.shape@);
        }
        slice_tensor_value(&host, sels.as_slice())
    }
}

/// Whether every index names a single position.
pub fn all_single_exec(exprs: &Vec<CacheIndexExpr>) -> (r: bool)
    ensures
        r == all_single(exprs@),
{
    let mut i: usize = 0;
    while i < exprs.len()
        invariant
            i <= exprs@.len(),
            forall|j: int| 0 <= j < i ==> #[trigger] exprs@[j] is Single,
        decreases exprs@.len() - i,
    {
        if !cache_index_is_single(&exprs[i]) {
            return false;
        }
        i = i + 1;
    }
    true
}


impl CacheStore {
    /// Write `src` to a cached (non-table) variable, as `write_value_spec`
    /// says.
    #[verifier::loop_isolation(false)]
    pub fn write_cache_value(
        &mut self,
        src: &TensorValue,
        access: &CacheAccess,
        decl: &VarDecl,
        vars: &StringHashMap<VarDecl>,
        model: &ModelLoader,
        loop_vars: &StringHashMap<i64>,
    ) -> (r: Result<(), CacheError>)
        requires
            old(self).wf(),
            src.wf(),
        ensures
            final(self).wf(),
            final(self).tables == old(self).tables,
            (r, final(self).sv()) == write_value_spec(old(self).sv(), src@, *access, *decl, vars@, model.sizes@, loop_vars@),
    {
        let base = access.base.as_str();
        let indexed = access.bracketed && access.indices.len() > 0;
        if indexed && !decl.has_auto_dim() {
            return Err(CacheError::IndexedWriteUnsupported);
        }
        if decl.has_auto_dim() {
            if indexed {
                if !all_single_exec(&access.indices) {
                    return Err(CacheError::WriteNeedsScalarIndices);
                }
                match self.update_auto_dim_counts_from_access(access, decl, vars, model, loop_vars) {
                    Ok(()) => {},
                    Err(e) => return Err(e),
                }
            }
            let shape = match self.auto_dims.get(base) {
                None => return Err(CacheError::MissingAutoDimState),
                Some(state) => {
                    assert(self.sv().auto[base@] == state@);
                    match auto_dim_shape(state.base_shape.as_slice(), state.counts.as_slice()) {
                        Ok(v) => v,
                        Err(e) => return Err(e),
                    }
                },
            };
            if !crate::cache_table::same_key(src.shape.as_slice(), shape.as_slice()) {
                return Err(CacheError::WriteShapeMismatch);
            }
        }
        self.put_persistent(base, src.clone_value());
        Ok(())
    }

    /// Reset a cached (non-table) variable, as `reset_value_spec` says.
    pub fn reset_cache_value(&mut self, access: &CacheAccess, decl: &VarDecl, model: &ModelLoader) -> (r: Result<
        (),
        CacheError,
    >)
        requires
            old(self).wf(),
        ensures
            final(self).wf(),
            final(self).tables == old(self).tables,
            (r, final(self).sv()) == reset_value_spec(old(self).sv(), *access, *decl, model.sizes@),
    {
        let base = access.base.as_str();
        if decl.has_auto_dim() {
            let found = match self.auto_dims.get(base) {
                None => None,
                Some(state) => {
                    assert(self.sv().auto[base@] == state@);
                    let mut zeros: Vec<usize> = Vec::new();
                    let mut i: usize = 0;
                    while i < state.counts.len()
                        invariant
                            i <= state.counts@.len(),
                            zeros@ == Seq::new(i as nat, |k: int| 0usize),
                        decreases state.counts@.len() - i,
                    {
                        zeros.push(0);
                        i = i + 1;
                        assert(zeros@ =~= Seq::new(i as nat, |k: int| 0usize));
                    }
                    Some(AutoDimState {
                        base_shape: copy_usizes(state.base_shape.as_slice()),
                        counts: zeros,
                        max: copy_limits(&state.max),
                    })
                },
            };
            if let Some(st) = found {
                let shape = auto_dim_shape(st.base_shape.as_slice(), st.counts.as_slice());
                let ghost autos = self.auto_dims@;
                let ghost st_v = st;
                self.auto_dims.insert(access.base.clone(), st);
                proof {
                    lemma_auto_insert(autos, base@, st_v);
                }
                let shape = match shape {
                    Ok(v) => v,
                    Err(e) => return Err(e),
                };
                match self.ensure_persistent_shape(base, decl, shape.as_slice()) {
                    Ok(()) => {},
                    Err(e) => return Err(e),
                }
            }
        }
        let shape = match model.resolve_shape(decl.dims.as_slice()) {
            Ok(v) => v,
            Err(_) => return Err(CacheError::UnknownSize),
        };
        let value = match crate::cache_store::initial_value(decl, shape.as_slice()) {
            Ok(v) => v,
            Err(e) => return Err(e),
        };
        self.put_persistent(base, value);
        Ok(())
    }
}


/// Reading a cached variable whole after writing it whole gives back the
/// value written, and leaves the store as the write left it.
pub proof fn law_value_write_then_read(
    s: StoreView,
    src: TensorView,
    access: CacheAccess,
    decl: VarDecl,
    vars: Map<Seq<char>, VarDecl>,
    sizes: Map<Seq<char>, usize>,
    loops: Map<Seq<char>, i64>,
)
    requires
        !access.bracketed,
        write_value_spec(s, src, access, decl, vars, sizes, loops).0 is Ok,
    ensures
        ({
            let after = write_value_spec(s, src, access, decl, vars, sizes, loops).1;
            read_value_spec(after, access, decl, vars, sizes, loops) == (Ok::<TensorView, CacheError>(src), after)
        }),
{
    let after = write_value_spec(s, src, access, decl, vars, sizes, loops).1;
    let base = access.base@;
    assert(after.persistent.contains_key(base) && after.persistent[base] == src);
    if decl.has_auto_dim_spec() {
        assert(after.auto == s.auto);
        assert(pre_read_spec(after, base, decl) == (Ok::<(), CacheError>(()), after));
    }
}

/// Reading a plain cached variable whole after resetting it gives its
/// starting value at the declared dimensions.
pub proof fn law_value_reset_then_read(
    s: StoreView,
    access: CacheAccess,
    decl: VarDecl,
    vars: Map<Seq<char>, VarDecl>,
    sizes: Map<Seq<char>, usize>,
    loops: Map<Seq<char>, i64>,
)
    requires
        !access.bracketed,
        !decl.has_auto_dim_spec(),
        reset_value_spec(s, access, decl, sizes).0 is Ok,
    ensures
        ({
            let after = reset_value_spec(s, access, decl, sizes).1;
            let shape = Seq::new(decl.dims@.len(), |i: int| dim_value_spec(sizes, decl.dims@[i]@)->Ok_0);
            &&& initial_value_spec(decl, shape) is Ok
            &&& read_value_spec(after, access, decl, vars, sizes, loops) == (initial_value_spec(decl, shape), after)
        }),
{
}


/// The shape of one entry of a cache table: the grown shape of a growing
/// variable with a growth state, else the declared dimensions resolved.
pub open spec fn entry_shape_spec(s: StoreView, decl: VarDecl, sizes: Map<Seq<char>, usize>) -> Result<
    Seq<usize>,
    CacheError,
> {
    if exists|i: int| 0 <= i < decl.dims@.len() && #[trigger] dim_value_spec(sizes, decl.dims@[i]@) is Err {
        Err(CacheError::UnknownSize)
    } else if decl.has_auto_dim_spec() && s.auto.contains_key(decl.name@) {
        grown_shape(s.auto[decl.name@])
    } else {
        Ok(Seq::new(decl.dims@.len(), |i: int| dim_value_spec(sizes, decl.dims@[i]@)->Ok_0))
    }
}

/// No single position is the largest `usize` (one past it must exist).
pub open spec fn singles_below_max(res: Seq<ResolvedCacheIndexExpr>) -> bool {
    forall|i: int| 0 <= i < res.len() ==> (#[trigger] res[i] matches ResolvedCacheIndexExpr::Single(v) ==> v < usize::MAX)
}

/// What reading the table named `access.base` does to the tables and gives.
pub open spec fn table_read_outcome(
    before: Seq<CacheTable>,
    after: Seq<CacheTable>,
    access: CacheAccess,
    resolved: Seq<ResolvedCacheIndexExpr>,
    entry_shape: Seq<usize>,
    r: Result<TensorValue, CacheError>,
) -> bool {
    &&& after.len() == before.len()
    &&& forall|j: int| 0 <= j < before.len() && (#[trigger] before[j]).decl.name@ != access.base@ ==> after[j] == before[j]
    &&& (forall|i: int| 0 <= i < before.len() ==> (#[trigger] before[i]).decl.name@ != access.base@) ==> r
        == Err::<TensorValue, CacheError>(CacheError::MissingTable)
    &&& forall|i: int|
        0 <= i < before.len() && (#[trigger] before[i]).decl.name@ == access.base@ ==> {
            let t = before[i];
            let (sz, res) = table_read_spec(
                t.sizes@,
                t.fixed_sizes@,
                t.entries_view(),
                t.decl.dtype,
                t.decl.init,
                access.bracketed,
                resolved,
                entry_shape,
            );
            &&& after[i].sizes@ == sz
            &&& after[i].decl == t.decl
            &&& match res {
                Ok((out, m2)) => (r matches Ok(v) && v@ == out && v.wf()) && after[i].entries_view() == m2,
                Err(e) => r == Err::<TensorValue, CacheError>(e) && after[i].entries_view() == t.entries_view(),
            }
        }
}

/// What writing `src` into the table named `access.base` does.
pub open spec fn table_write_outcome(
    before: Seq<CacheTable>,
    after: Seq<CacheTable>,
    access: CacheAccess,
    resolved: Seq<ResolvedCacheIndexExpr>,
    entry_shape: Seq<usize>,
    src: TensorView,
    r: Result<(), CacheError>,
) -> bool {
    &&& after.len() == before.len()
    &&& forall|j: int| 0 <= j < before.len() && (#[trigger] before[j]).decl.name@ != access.base@ ==> after[j] == before[j]
    &&& (forall|i: int| 0 <= i < before.len() ==> (#[trigger] before[i]).decl.name@ != access.base@) ==> r
        == Err::<(), CacheError>(CacheError::MissingTable)
    &&& forall|i: int|
        0 <= i < before.len() && (#[trigger] before[i]).decl.name@ == access.base@ ==> {
            let t = before[i];
            let (sz, res) = table_write_spec(
                t.sizes@,
                t.fixed_sizes@,
                t.entries_view(),
                access.bracketed,
                resolved,
                entry_shape,
                src,
            );
            &&& after[i].sizes@ == sz
            &&& after[i].decl == t.decl
            &&& after[i].fixed_sizes == t.fixed_sizes
            &&& match res {
                Ok(m2) => r is Ok && after[i].entries_view() == m2,
                Err(e) => r == Err::<(), CacheError>(e) && after[i].entries_view() == t.entries_view(),
            }
        }
}

/// Reading a cache table through an access: its indices resolved (see
/// `resolve_exprs_spec`), the entry shape (see `entry_shape_spec`), and the
/// table read (see `table_read_outcome`).
pub open spec fn read_table_post(
    before: CacheStore,
    after: CacheStore,
    access: CacheAccess,
    decl: VarDecl,
    vars: Map<Seq<char>, VarDecl>,
    sizes: Map<Seq<char>, usize>,
    loops: Map<Seq<char>, i64>,
    r: Result<TensorValue, CacheError>,
) -> bool {
    match resolve_exprs_spec(before.sv(), access.indices@, access.indices@.len(), vars, sizes, loops) {
        (Err(e), s1) => r == Err::<TensorValue, CacheError>(e) && after.sv() == s1 && after.tables@ == before.tables@,
        (Ok(res), s1) => after.sv() == s1 && match entry_shape_spec(s1, decl, sizes) {
            Err(e) => r == Err::<TensorValue, CacheError>(e) && after.tables@ == before.tables@,
            Ok(es) => if !singles_below_max(res) {
                r == Err::<TensorValue, CacheError>(CacheError::IndexOutOfBounds) && after.tables@ == before.tables@
            } else {
                table_read_outcome(before.tables@, after.tables@, access, res, es, r)
            },
        },
    }
}

/// Writing `src` into a cache table through an access, likewise.
pub open spec fn write_table_post(
    before: CacheStore,
    after: CacheStore,
    src: TensorView,
    access: CacheAccess,
    decl: VarDecl,
    vars: Map<Seq<char>, VarDecl>,
    sizes: Map<Seq<char>, usize>,
    loops: Map<Seq<char>, i64>,
    r: Result<(), CacheError>,
) -> bool {
    match resolve_exprs_spec(before.sv(), access.indices@, access.indices@.len(), vars, sizes, loops) {
        (Err(e), s1) => r == Err::<(), CacheError>(e) && after.sv() == s1 && after.tables@ == before.tables@,
        (Ok(res), s1) => after.sv() == s1 && match entry_shape_spec(s1, decl, sizes) {
            Err(e) => r == Err::<(), CacheError>(e) && after.tables@ == before.tables@,
            Ok(es) => if !singles_below_max(res) {
                r == Err::<(), CacheError>(CacheError::IndexOutOfBounds) && after.tables@ == before.tables@
            } else {
                table_write_outcome(before.tables@, after.tables@, access, res, es, src, r)
            },
        },
    }
}

impl CacheStore {
    fn entry_shape(&self, decl: &VarDecl, model: &ModelLoader) -> (r: Result<Vec<usize>, CacheError>)
        ensures
            match entry_shape_spec(self.sv(), *decl, model.sizes@) {
                Ok(v) => r matches Ok(x) && x@ == v,
                Err(e) => r == Err::<Vec<usize>, CacheError>(e),
            },
    {
        let r = self.cache_entry_shape(decl, model);
        proof {
            lemma_start_shape(self.auto_dims@, decl.name@, *decl, model.sizes@, self.sv());
        }
        r
    }

    fn singles_ok(res: &Vec<ResolvedCacheIndexExpr>) -> (r: bool)
        ensures
            r == singles_below_max(res@),
    {
        let mut i: usize = 0;
        while i < res.len()
            invariant
                i <= res@.len(),
                forall|j: int| 0 <= j < i ==> (#[trigger] res@[j] matches ResolvedCacheIndexExpr::Single(v) ==> v < usize::MAX),
            decreases res@.len() - i,
        {
            if let ResolvedCacheIndexExpr::Single(v) = res[i] {
                if v == usize::MAX {
                    return false;
                }
            }
            i = i + 1;
        }
        true
    }

    /// Read a cache table through an access: its indices resolved (see
    /// `resolve_exprs_spec`), the entry shape (see `entry_shape_spec`), and
    /// the table read (see `table_read_spec`).
    pub fn read_cache_table(
        &mut self,
        access: &CacheAccess,
        decl: &VarDecl,
        vars: &StringHashMap<VarDecl>,
        model: &ModelLoader,
        loop_vars: &StringHashMap<i64>,
    ) -> (r: Result<TensorValue, CacheError>)
        requires
            old(self).wf(),
        ensures
            final(self).wf(),
            read_table_post(*old(self), *final(self), *access, *decl, vars@, model.sizes@, loop_vars@, r),
    {
        let resolved = match self.resolve_cache_index_exprs(access, vars, model, loop_vars) {
            Ok(v) => v,
            Err(e) => return Err(e),
        };
        let es = match self.entry_shape(decl, model) {
            Ok(v) => v,
            Err(e) => return Err(e),
        };
        if !Self::singles_ok(&resolved) {
            return Err(CacheError::IndexOutOfBounds);
        }
        let ghost before = *self;
        let r = self.read_table(access, resolved.as_slice(), es.as_slice());
        proof {
            lemma_auto_view_same(self.auto_dims, before.auto_dims);
        }
        r
    }

    /// Write `src` into a cache table through an access: its indices
    /// resolved, the entry shape, and the table written (see
    /// `table_write_spec`).
    pub fn write_cache_table(
        &mut self,
        src: &TensorValue,
        access: &CacheAccess,
        decl: &VarDecl,
        vars: &StringHashMap<VarDecl>,
        model: &ModelLoader,
        loop_vars: &StringHashMap<i64>,
    ) -> (r: Result<(), CacheError>)
        requires
            old(self).wf(),
            src.wf(),
        ensures
            final(self).wf(),
            write_table_post(*old(self), *final(self), src@, *access, *decl, vars@, model.sizes@, loop_vars@, r),
    {
        let resolved = match self.resolve_cache_index_exprs(access, vars, model, loop_vars) {
            Ok(v) => v,
            Err(e) => return Err(e),
        };
        let es = match self.entry_shape(decl, model) {
            Ok(v) => v,
            Err(e) => return Err(e),
        };
        if !Self::singles_ok(&resolved) {
            return Err(CacheError::IndexOutOfBounds);
        }
        let ghost before = *self;
        let r = self.write_table(src, access, resolved.as_slice(), es.as_slice());
        proof {
            lemma_auto_view_same(self.auto_dims, before.auto_dims);
        }
        r
    }
}


/// What resetting the table named `access.base` does: without indices it
/// is emptied; with indices, which must all be single positions, the
/// entries under that prefix go.
pub open spec fn table_reset_outcome(
    before: Seq<CacheTable>,
    after: Seq<CacheTable>,
    access: CacheAccess,
    resolved: Seq<ResolvedCacheIndexExpr>,
    r: Result<(), CacheError>,
) -> bool {
    &&& after.len() == before.len()
    &&& forall|j: int| 0 <= j < before.len() && (#[trigger] before[j]).decl.name@ != access.base@ ==> after[j] == before[j]
    &&& (forall|i: int| 0 <= i < before.len() ==> (#[trigger] before[i]).decl.name@ != access.base@) ==> r
        == Err::<(), CacheError>(CacheError::MissingTable)
    &&& forall|i: int|
        0 <= i < before.len() && (#[trigger] before[i]).decl.name@ == access.base@ ==> {
            let t = before[i];
            &&& (!access.bracketed || access.indices@.len() == 0) ==> r is Ok && after[i].entries@.len() == 0
            &&& (access.bracketed && access.indices@.len() > 0 && !crate::cache_table::all_single(resolved)) ==> r
                == Err::<(), CacheError>(CacheError::ResetNeedsScalarIndices) && after[i] == t
            &&& (access.bracketed && access.indices@.len() > 0 && crate::cache_table::all_single(resolved)) ==> r is Ok
                && after[i].entries_view() == Map::new(
                |k: Seq<usize>|
                    t.entries_view().contains_key(k) && !crate::cache_table::has_prefix(
                        k,
                        Seq::new(resolved.len(), |j: int| resolved[j]->Single_0),
                    ),
                |k: Seq<usize>| t.entries_view()[k],
            )
        }
}

/// Resetting a cache table through an access: its indices resolved, then
/// the table reset (see `table_reset_outcome`).
pub open spec fn reset_table_post(
    before: CacheStore,
    after: CacheStore,
    access: CacheAccess,
    vars: Map<Seq<char>, VarDecl>,
    sizes: Map<Seq<char>, usize>,
    loops: Map<Seq<char>, i64>,
    r: Result<(), CacheError>,
) -> bool {
    match resolve_exprs_spec(before.sv(), access.indices@, access.indices@.len(), vars, sizes, loops) {
        (Err(e), s1) => r == Err::<(), CacheError>(e) && after.sv() == s1 && after.tables@ == before.tables@,
        (Ok(res), s1) => after.sv() == s1 && table_reset_outcome(before.tables@, after.tables@, access, res, r),
    }
}

/// Reading a cached variable: a cache table (see `read_table_post`) or a
/// plain one (see `read_value_spec`).
pub open spec fn read_post(
    before: CacheStore,
    after: CacheStore,
    access: CacheAccess,
    decl: VarDecl,
    vars: Map<Seq<char>, VarDecl>,
    sizes: Map<Seq<char>, usize>,
    loops: Map<Seq<char>, i64>,
    r: Result<TensorValue, CacheError>,
) -> bool {
    &&& decl.is_cache_table_spec() ==> read_table_post(before, after, access, decl, vars, sizes, loops, r)
    &&& !decl.is_cache_table_spec() ==> after.tables == before.tables && match read_value_spec(
        before.sv(),
        access,
        decl,
        vars,
        sizes,
        loops,
    ) {
        (Ok(v), s1) => (r matches Ok(t) && t@ == v && t.wf()) && after.sv() == s1,
        (Err(e), s1) => r == Err::<TensorValue, CacheError>(e) && after.sv() == s1,
    }
}

/// Writing `src` to a cached variable: a cache table (see
/// `write_table_post`) or a plain one (see `write_value_spec`).
pub open spec fn write_post(
    before: CacheStore,
    after: CacheStore,
    src: TensorView,
    access: CacheAccess,
    decl: VarDecl,
    vars: Map<Seq<char>, VarDecl>,
    sizes: Map<Seq<char>, usize>,
    loops: Map<Seq<char>, i64>,
    r: Result<(), CacheError>,
) -> bool {
    &&& decl.is_cache_table_spec() ==> write_table_post(before, after, src, access, decl, vars, sizes, loops, r)
    &&& !decl.is_cache_table_spec() ==> after.tables == before.tables && (r, after.sv()) == write_value_spec(
        before.sv(),
        src,
        access,
        decl,
        vars,
        sizes,
        loops,
    )
}

/// Resetting a cached variable: a cache table (see `reset_table_post`) or a
/// plain one (see `reset_value_spec`).
pub open spec fn reset_post(
    before: CacheStore,
    after: CacheStore,
    access: CacheAccess,
    decl: VarDecl,
    vars: Map<Seq<char>, VarDecl>,
    sizes: Map<Seq<char>, usize>,
    loops: Map<Seq<char>, i64>,
    r: Result<(), CacheError>,
) -> bool {
    &&& decl.is_cache_table_spec() ==> reset_table_post(before, after, access, vars, sizes, loops, r)
    &&& !decl.is_cache_table_spec() ==> after.tables == before.tables && (r, after.sv()) == reset_value_spec(
        before.sv(),
        access,
        decl,
        sizes,
    )
}

impl CacheStore {
    /// Reset a cache table through an access, as `reset_table_post` says.
    pub fn reset_cache_table(
        &mut self,
        access: &CacheAccess,
        decl: &VarDecl,
        vars: &StringHashMap<VarDecl>,
        model: &ModelLoader,
        loop_vars: &StringHashMap<i64>,
    ) -> (r: Result<(), CacheError>)
        requires
            old(self).wf(),
        ensures
            final(self).wf(),
            reset_table_post(*old(self), *final(self), *access, vars@, model.sizes@, loop_vars@, r),
    {
        let resolved = match self.resolve_cache_index_exprs(access, vars, model, loop_vars) {
            Ok(v) => v,
            Err(e) => return Err(e),
        };
        let ghost before = *self;
        let r = self.reset_table(access, resolved.as_slice(), decl);
        proof {
            lemma_auto_view_same(self.auto_dims, before.auto_dims);
        }
        r
    }

    /// Read a cached variable: a cache table (see `read_table_post`) or a
    /// plain one (see `read_value_spec`).
    pub fn read(
        &mut self,
        access: &CacheAccess,
        decl: &VarDecl,
        vars: &StringHashMap<VarDecl>,
        model: &ModelLoader,
        loop_vars: &StringHashMap<i64>,
    ) -> (r: Result<TensorValue, CacheError>)
        requires
            old(self).wf(),
        ensures
            final(self).wf(),
            read_post(*old(self), *final(self), *access, *decl, vars@, model.sizes@, loop_vars@, r),
    {
        if decl.is_cache_table() {
            return self.read_cache_table(access, decl, vars, model, loop_vars);
        }
        self.read_cache_value(access, decl, vars, model, loop_vars)
    }

    /// Write `src` to a cached variable: a cache table (see
    /// `write_table_post`) or a plain one (see `write_value_spec`).
    pub fn write(
        &mut self,
        src: &TensorValue,
        access: &CacheAccess,
        decl: &VarDecl,
        vars: &StringHashMap<VarDecl>,
        model: &ModelLoader,
        loop_vars: &StringHashMap<i64>,
    ) -> (r: Result<(), CacheError>)
        requires
            old(self).wf(),
            src.wf(),
        ensures
            final(self).wf(),
            write_post(*old(self), *final(self), src@, *access, *decl, vars@, model.sizes@, loop_vars@, r),
    {
        if decl.is_cache_table() {
            return self.write_cache_table(src, access, decl, vars, model, loop_vars);
        }
        self.write_cache_value(src, access, decl, vars, model, loop_vars)
    }

    /// Reset a cached variable: a cache table (see `reset_table_post`) or a
    /// plain one (see `reset_value_spec`).
    pub fn reset(
        &mut self,
        access: &CacheAccess,
        decl: &VarDecl,
        vars: &StringHashMap<VarDecl>,
        model: &ModelLoader,
        loop_vars: &StringHashMap<i64>,
    ) -> (r: Result<(), CacheError>)
        requires
            old(self).wf(),
        ensures
            final(self).wf(),
            reset_post(*old(self), *final(self), *access, *decl, vars@, model.sizes@, loop_vars@, r),
    {
        if decl.is_cache_table() {
            return self.reset_cache_table(access, decl, vars, model, loop_vars);
        }
        self.reset_cache_value(access, decl, model)
    }
}

impl CacheStore {
    /// Add `amount` to (or subtract it from) the scalar persistent variable
    /// `target` (see `bump_spec`).
    pub fn bump(
        &mut self,
        target: &str,
        amount: i64,
        decrement: bool,
        graph_vars: &StringHashMap<VarDecl>,
        model: &ModelLoader,
    ) -> (r: Result<(), CacheError>)
        requires
            old(self).wf(),
            !(decrement && amount == i64::MIN),
        ensures
            final(self).wf(),
            final(self).tables == old(self).tables,
            (r, final(self).sv()) == bump_spec(old(self).sv(), target@, amount, decrement, graph_vars@, model.sizes@),
    {
        let decl = match graph_vars.get(target) {
            Some(d) => d,
            None => return Err(CacheError::UnknownVariable),
        };
        if decl.kind != MemoryKind::Persistent {
            return Err(CacheError::NotPersistent);
        }
        let value = match self.init_persistent(target, decl, model) {
            Ok(v) => v,
            Err(e) => return Err(e),
        };
        let updated = match increment_scalar(value, amount, decrement) {
            Ok(v) => v,
            Err(e) => return Err(e),
        };
        self.put_persistent(target, updated);
        Ok(())
    }
}

} // verus!
