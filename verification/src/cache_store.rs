//! The runtime's cache: persistent values by name, cache tables, and the
//! growth state of auto-sized variables.
use vstd::prelude::*;
use vstd::hash_map::StringHashMap;
use crate::cache::{auto_dim_shape, fixed_size_for, sat_add, AutoDimState, CacheError, ResolvedCacheIndexExpr};
use crate::cache_table::{law_read_after_write, entry_compatible, opt_get, lemma_dims_len, build_cache_table, read_selection_spec, read_table_selection, reset_table_entries, resolve_dims_spec, resolve_table_indices_from_resolved, sel_views, write_key, write_table_entry, all_scalar, CacheTable};

use crate::dtype::{packed, storage_units, DType};
use crate::graph::{CacheAccess, VarDecl};
use crate::model_loader::{dim_value_spec, ModelLoader};
use crate::tensor::{numel, shape_fits, shape_fits_exec, copy_usizes, TensorValue, TensorView};
use crate::text::str_eq;

verus! {

/// Persistent values, cache tables and auto-dimension states.
pub struct CacheStore {
    pub persistent: StringHashMap<TensorValue>,
    pub tables: Vec<CacheTable>,
    pub auto_dims: StringHashMap<AutoDimState>,
}

/// The persistent values as views.
pub open spec fn persistent_view(m: Map<Seq<char>, TensorValue>) -> Map<Seq<char>, TensorView> {
    m.map_values(|t: TensorValue| t@)
}

impl CacheStore {
    /// Every persistent value and table well formed, and no two tables
    /// under one name.
    pub open spec fn wf(&self) -> bool {
        &&& forall|k: Seq<char>| #[trigger] self.persistent@.contains_key(k) ==> self.persistent@[k].wf()
        &&& forall|i: int| 0 <= i < self.tables@.len() ==> (#[trigger] self.tables@[i]).wf()
        &&& forall|i: int, j: int|
            0 <= i < self.tables@.len() && 0 <= j < self.tables@.len() && i != j ==> (
            #[trigger] self.tables@[i]).decl.name@ != (#[trigger] self.tables@[j]).decl.name@
    }

    /// An empty store.
    pub fn empty() -> (r: CacheStore)
        ensures
            r.wf(),
            r.persistent@ == Map::<Seq<char>, TensorValue>::empty(),
            r.tables@.len() == 0,
    {
        CacheStore { persistent: StringHashMap::new(), tables: Vec::new(), auto_dims: StringHashMap::new() }
    }

    /// Whether a persistent value is stored under `name`.
    pub fn has_persistent(&self, name: &str) -> (r: bool)
        ensures
            r == self.persistent@.contains_key(name@),
    {
        self.persistent.contains_key(name)
    }

    /// A copy of the persistent value stored under `name`.
    pub fn get_persistent(&self, name: &str) -> (r: Option<TensorValue>)
        ensures
            match r {
                Some(t) => self.persistent@.contains_key(name@) && t@ == self.persistent@[name@]@,
                None => !self.persistent@.contains_key(name@),
            },
    {
        match self.persistent.get(name) {
            Some(t) => Some(t.clone_value()),
            None => None,
        }
    }

    /// Store `value` under `name`, replacing what was there.
    pub fn set_persistent(&mut self, name: &str, value: TensorValue)
        requires
            old(self).wf(),
            value.wf(),
        ensures
            final(self).wf(),
            final(self).persistent@ == old(self).persistent@.insert(name@, value),
            final(self).tables == old(self).tables,
            final(self).auto_dims@ == old(self).auto_dims@,
    {
        self.persistent.insert(name.to_string(), value);
    }

    /// Position of the table named `name`.
    pub fn find_table(&self, name: &str) -> (r: Option<usize>)
        ensures
            match r {
                Some(i) => i < self.tables@.len() && self.tables@[i as int].decl.name@ == name@,
                None => forall|i: int| 0 <= i < self.tables@.len() ==> (#[trigger] self.tables@[i]).decl.name@ != name@,
            },
    {
        let mut i: usize = 0;
        while i < self.tables.len()
            invariant
                i <= self.tables@.len(),
                forall|j: int| 0 <= j < i ==> (#[trigger] self.tables@[j]).decl.name@ != name@,
            decreases self.tables@.len() - i,
        {
            if str_eq(self.tables[i].decl.name.as_str(), name) {
                return Some(i);
            }
            i = i + 1;
        }
        None
    }
}

/// The shape a persistent variable starts with: its grown shape when it has
/// growing dimensions, else its declared dimensions resolved.
pub open spec fn persistent_shape_spec(
    auto: Map<Seq<char>, AutoDimState>,
    name: Seq<char>,
    decl: VarDecl,
    sizes: Map<Seq<char>, usize>,
) -> Result<Seq<usize>, CacheError> {
    if decl.has_auto_dim_spec() {
        if !auto.contains_key(name) {
            Err(CacheError::MissingAutoDimState)
        } else if auto[name].base_shape@.len() != auto[name].counts@.len() {
            Err(CacheError::AutoDimRankMismatch)
        } else {
            Ok(
                Seq::new(
                    auto[name].base_shape@.len(),
                    |i: int| sat_add(auto[name].base_shape@[i], auto[name].counts@[i]),
                ),
            )
        }
    } else if exists|i: int| 0 <= i < decl.dims@.len() && #[trigger] dim_value_spec(sizes, decl.dims@[i]@) is Err {
        Err(CacheError::UnknownSize)
    } else {
        Ok(Seq::new(decl.dims@.len(), |i: int| dim_value_spec(sizes, decl.dims@[i]@)->Ok_0))
    }
}

/// The value a variable starts with in `shape`: its initializer, or zeros.
pub open spec fn initial_value_spec(decl: VarDecl, shape: Seq<usize>) -> Result<TensorView, CacheError> {
    if !shape_fits(shape) {
        Err(CacheError::ShapeTooLarge)
    } else {
        match decl.init {
            Some(v) => match v.fill_spec(decl.dtype) {
                Ok(_) => Ok(
                    TensorView {
                        dtype: decl.dtype,
                        shape,
                        data: Seq::new(numel(shape), |i: int| v.bits),
                    },
                ),
                Err(_) => Err(CacheError::InitFailed),
            },
            None => Ok(
                TensorView {
                    dtype: decl.dtype,
                    shape,
                    data: Seq::new(storage_units(decl.dtype, numel(shape)), |i: int| 0u64),
                },
            ),
        }
    }
}

/// The value a variable starts with in `shape`.
pub fn initial_value(decl: &VarDecl, shape: &[usize]) -> (r: Result<TensorValue, CacheError>)
    ensures
        match initial_value_spec(*decl, shape@) {
            Ok(v) => r matches Ok(t) && t@ == v && t.wf(),
            Err(e) => r == Err::<TensorValue, CacheError>(e),
        },
{
    let s = copy_usizes(shape);
    if !shape_fits_exec(&s) {
        return Err(CacheError::ShapeTooLarge);
    }
    match decl.init {
        Some(v) => match v.to_tensor_value(decl.dtype, shape) {
            Ok(t) => Ok(t),
            Err(_) => Err(CacheError::InitFailed),
        },
        None => {
            let t = TensorValue::zeros(decl.dtype, shape);
            assert(t.data@ =~= Seq::new(storage_units(decl.dtype, numel(shape@)), |i: int| 0u64));
            Ok(t)
        },
    }
}

impl CacheStore {
    /// The persistent value under `name`, stored first with its starting
    /// value when there is none.
    pub fn get_or_init_persistent(&mut self, name: &str, decl: &VarDecl, model: &ModelLoader) -> (r:
        Result<TensorValue, CacheError>)
        requires
            old(self).wf(),
        ensures
            final(self).wf(),
            final(self).tables == old(self).tables,
            final(self).auto_dims@ == old(self).auto_dims@,
            r matches Ok(t) ==> t.wf(),
            old(self).persistent@.contains_key(name@) ==> (r matches Ok(t) && t@ == old(
                self,
            ).persistent@[name@]@) && final(self).persistent@ == old(self).persistent@,
            !old(self).persistent@.contains_key(name@) ==> match persistent_shape_spec(
                old(self).auto_dims@,
                name@,
                *decl,
                model.sizes@,
            ) {
                Err(e) => r == Err::<TensorValue, CacheError>(e) && final(self).persistent@ == old(
                    self,
                ).persistent@,
                Ok(shape) => match initial_value_spec(*decl, shape) {
                    Err(e) => r == Err::<TensorValue, CacheError>(e) && final(self).persistent@
                        == old(self).persistent@,
                    Ok(v) => (r matches Ok(t) && t@ == v) && final(self).persistent@.contains_key(
                        name@,
                    ) && final(self).persistent@[name@]@ == v && final(self).persistent@.remove(
                        name@,
                    ) == old(self).persistent@.remove(name@),
                },
            },
    {
        if let Some(t) = self.persistent.get(name) {
            return Ok(t.clone_value());
        }
        let shape = if decl.has_auto_dim() {
            let state = match self.auto_dims.get(name) {
                Some(s) => s,
                None => return Err(CacheError::MissingAutoDimState),
            };
            match auto_dim_shape(state.base_shape.as_slice(), state.counts.as_slice()) {
                Ok(s) => s,
                Err(e) => return Err(e),
            }
        } else {
            match model.resolve_shape(decl.dims.as_slice()) {
                Ok(s) => s,
                Err(_) => return Err(CacheError::UnknownSize),
            }
        };
        let value = match initial_value(decl, shape.as_slice()) {
            Ok(v) => v,
            Err(e) => return Err(e),
        };
        let copy = value.clone_value();
        let ghost before = self.persistent@;
        self.set_persistent(name, value);
        proof {
            assert(self.persistent@.remove(name@) =~= before.remove(name@));
        }
        Ok(copy)
    }
}

/// Reading a table addressed by resolved indices: the sizes afterwards, and
/// the tensor read with the entries afterwards (or the first error).
pub open spec fn table_read_spec(
    sizes: Seq<usize>,
    fixed: Seq<Option<usize>>,
    entries: Map<Seq<usize>, TensorView>,
    dtype: DType,
    init: Option<crate::graph::ScalarValue>,
    bracketed: bool,
    resolved: Seq<ResolvedCacheIndexExpr>,
    entry_shape: Seq<usize>,
) -> (Seq<usize>, Result<(TensorView, Map<Seq<usize>, TensorView>), CacheError>) {
    if !bracketed {
        (sizes, Err(CacheError::IndicesRequired))
    } else if resolved.len() > sizes.len() {
        (sizes, Err(CacheError::TooManyIndices))
    } else {
        let (sz, res) = resolve_dims_spec(sizes, fixed, resolved, sizes.len());
        match res {
            Err(e) => (sz, Err(e)),
            Ok(sv) => (sz, read_selection_spec(entries, sv, dtype, entry_shape, init)),
        }
    }
}

/// Writing `src` into a table addressed by resolved indices: the sizes
/// afterwards, and the entries afterwards (or the first error).
pub open spec fn table_write_spec(
    sizes: Seq<usize>,
    fixed: Seq<Option<usize>>,
    entries: Map<Seq<usize>, TensorView>,
    bracketed: bool,
    resolved: Seq<ResolvedCacheIndexExpr>,
    entry_shape: Seq<usize>,
    src: TensorView,
) -> (Seq<usize>, Result<Map<Seq<usize>, TensorView>, CacheError>) {
    if !bracketed {
        (sizes, Err(CacheError::IndicesRequired))
    } else if resolved.len() > sizes.len() {
        (sizes, Err(CacheError::TooManyIndices))
    } else {
        let (sz, res) = resolve_dims_spec(sizes, fixed, resolved, sizes.len());
        match res {
            Err(e) => (sz, Err(e)),
            Ok(sv) => if !all_scalar(sv) {
                (sz, Err(CacheError::WriteNeedsScalarIndices))
            } else if src.shape != entry_shape {
                (sz, Err(CacheError::WriteShapeMismatch))
            } else {
                (sz, Ok(entries.insert(write_key(sv), src)))
            },
        }
    }
}

impl CacheStore {
    /// The shape of one entry of a cache table: the declared dimensions
    /// resolved, or the grown shape when the variable has growing dimensions.
    pub fn cache_entry_shape(&self, decl: &VarDecl, model: &ModelLoader) -> (r: Result<Vec<usize>, CacheError>)
        ensures
            (exists|i: int| 0 <= i < decl.dims@.len() && #[trigger] dim_value_spec(model.sizes@, decl.dims@[i]@) is Err)
                ==> r == Err::<Vec<usize>, CacheError>(CacheError::UnknownSize),
            (forall|i: int| 0 <= i < decl.dims@.len() ==> #[trigger] dim_value_spec(model.sizes@, decl.dims@[i]@) is Ok)
                && !(decl.has_auto_dim_spec() && self.auto_dims@.contains_key(decl.name@)) ==> (r matches Ok(v)
                && v@ == Seq::new(decl.dims@.len(), |i: int| dim_value_spec(model.sizes@, decl.dims@[i]@)->Ok_0)),
            (forall|i: int| 0 <= i < decl.dims@.len() ==> #[trigger] dim_value_spec(model.sizes@, decl.dims@[i]@) is Ok)
                && decl.has_auto_dim_spec() && self.auto_dims@.contains_key(decl.name@) ==> match persistent_shape_spec(
                self.auto_dims@,
                decl.name@,
                *decl,
                model.sizes@,
            ) {
                Ok(s) => r matches Ok(v) && v@ == s,
                Err(e) => r == Err::<Vec<usize>, CacheError>(e),
            },
    {
        let shape = match model.resolve_shape(decl.dims.as_slice()) {
            Ok(s) => s,
            Err(_) => return Err(CacheError::UnknownSize),
        };
        if decl.has_auto_dim() {
            if let Some(state) = self.auto_dims.get(decl.name.as_str()) {
                return match auto_dim_shape(state.base_shape.as_slice(), state.counts.as_slice()) {
                    Ok(s) => Ok(s),
                    Err(e) => Err(e),
                };
            }
        }
        Ok(shape)
    }

    /// Read a cache table through an access whose indices are resolved.
    pub fn read_table(
        &mut self,
        access: &CacheAccess,
        resolved: &[ResolvedCacheIndexExpr],
        entry_shape: &[usize],
    ) -> (r: Result<TensorValue, CacheError>)
        requires
            old(self).wf(),
            forall|i: int|
                0 <= i < resolved@.len() ==> (#[trigger] resolved@[i] matches ResolvedCacheIndexExpr::Single(
                    v,
                ) ==> v < usize::MAX),
        ensures
            final(self).wf(),
            final(self).persistent@ == old(self).persistent@,
            final(self).auto_dims@ == old(self).auto_dims@,
            final(self).tables@.len() == old(self).tables@.len(),
            forall|j: int|
                0 <= j < old(self).tables@.len() && (#[trigger] old(self).tables@[j]).decl.name@ != access.base@
                    ==> final(self).tables@[j] == old(self).tables@[j],
            (forall|i: int| 0 <= i < old(self).tables@.len() ==> (#[trigger] old(self).tables@[i]).decl.name@ != access.base@)
                ==> r == Err::<TensorValue, CacheError>(CacheError::MissingTable) && final(self).tables == old(self).tables,
            forall|i: int|
                0 <= i < old(self).tables@.len() && (#[trigger] old(self).tables@[i]).decl.name@ == access.base@ ==> {
                    let t = old(self).tables@[i];
                    let (sz, res) = table_read_spec(
                        t.sizes@,
                        t.fixed_sizes@,
                        t.entries_view(),
                        t.decl.dtype,
                        t.decl.init,
                        access.bracketed,
                        resolved@,
                        entry_shape@,
                    );
                    &&& final(self).tables@[i].sizes@ == sz
                    &&& final(self).tables@[i].decl == t.decl
                    &&& match res {
                        Ok((out, m2)) => (r matches Ok(v) && v@ == out && v.wf()) && final(self).tables@[i].entries_view() == m2,
                        Err(e) => r == Err::<TensorValue, CacheError>(e) && final(self).tables@[i].entries_view() == t.entries_view(),
                    }
                },
    {
        let i = match self.find_table(access.base.as_str()) {
            Some(i) => i,
            None => return Err(CacheError::MissingTable),
        };
        let ghost t0 = self.tables@[i as int];
        let ghost tabs = self.tables@;
        let table = &mut self.tables[i];
        let sels = match resolve_table_indices_from_resolved(table, access, resolved) {
            Ok(v) => v,
            Err(e) => {
                return Err(e);
            },
        };
        proof {
            lemma_dims_len(t0.sizes@, t0.fixed_sizes@, resolved@, t0.sizes@.len());
            let (sz, res) = resolve_dims_spec(t0.sizes@, t0.fixed_sizes@, resolved@, t0.sizes@.len());
            assert(sel_views(sels@) =~= res->Ok_0);
        }
        let init = table.decl.init;
        let out = match init {
            Some(v) => read_table_selection(table, sels.as_slice(), entry_shape, Some(&v)),
            None => read_table_selection(table, sels.as_slice(), entry_shape, None),
        };
        proof {
            assert forall|a: int, b: int|
                0 <= a < self.tables@.len() && 0 <= b < self.tables@.len() && a != b implies (
            #[trigger] self.tables@[a]).decl.name@ != (#[trigger] self.tables@[b]).decl.name@ by {
                assert(tabs[a].decl.name@ != tabs[b].decl.name@);
            }
        }
        out
    }
}

impl CacheStore {
    /// Write `src` into a cache table through an access whose indices are
    /// resolved.
    pub fn write_table(
        &mut self,
        src: &TensorValue,
        access: &CacheAccess,
        resolved: &[ResolvedCacheIndexExpr],
        entry_shape: &[usize],
    ) -> (r: Result<(), CacheError>)
        requires
            old(self).wf(),
            src.wf(),
            forall|i: int|
                0 <= i < resolved@.len() ==> (#[trigger] resolved@[i] matches ResolvedCacheIndexExpr::Single(
                    v,
                ) ==> v < usize::MAX),
        ensures
            final(self).wf(),
            final(self).persistent@ == old(self).persistent@,
            final(self).auto_dims@ == old(self).auto_dims@,
            final(self).tables@.len() == old(self).tables@.len(),
            forall|j: int|
                0 <= j < old(self).tables@.len() && (#[trigger] old(self).tables@[j]).decl.name@ != access.base@
                    ==> final(self).tables@[j] == old(self).tables@[j],
            (forall|i: int| 0 <= i < old(self).tables@.len() ==> (#[trigger] old(self).tables@[i]).decl.name@ != access.base@)
                ==> r == Err::<(), CacheError>(CacheError::MissingTable) && final(self).tables == old(self).tables,
            forall|i: int|
                0 <= i < old(self).tables@.len() && (#[trigger] old(self).tables@[i]).decl.name@ == access.base@ ==> {
                    let t = old(self).tables@[i];
                    let (sz, res) = table_write_spec(
                        t.sizes@,
                        t.fixed_sizes@,
                        t.entries_view(),
                        access.bracketed,
                        resolved@,
                        entry_shape@,
                        src@,
                    );
                    &&& final(self).tables@[i].sizes@ == sz
                    &&& final(self).tables@[i].decl == t.decl
                    &&& final(self).tables@[i].fixed_sizes == t.fixed_sizes
                    &&& match res {
                        Ok(m2) => r is Ok && final(self).tables@[i].entries_view() == m2,
                        Err(e) => r == Err::<(), CacheError>(e) && final(self).tables@[i].entries_view() == t.entries_view(),
                    }
                },
    {
        let i = match self.find_table(access.base.as_str()) {
            Some(i) => i,
            None => return Err(CacheError::MissingTable),
        };
        let ghost t0 = self.tables@[i as int];
        let ghost tabs = self.tables@;
        let table = &mut self.tables[i];
        let sels = match resolve_table_indices_from_resolved(table, access, resolved) {
            Ok(v) => v,
            Err(e) => {
                return Err(e);
            },
        };
        proof {
            lemma_dims_len(t0.sizes@, t0.fixed_sizes@, resolved@, t0.sizes@.len());
            let (sz, res) = resolve_dims_spec(t0.sizes@, t0.fixed_sizes@, resolved@, t0.sizes@.len());
            assert(sel_views(sels@) =~= res->Ok_0);
        }
        let out = write_table_entry(table, sels.as_slice(), entry_shape, src);
        proof {
            assert forall|a: int, b: int|
                0 <= a < self.tables@.len() && 0 <= b < self.tables@.len() && a != b implies (
            #[trigger] self.tables@[a]).decl.name@ != (#[trigger] self.tables@[b]).decl.name@ by {
                assert(tabs[a].decl.name@ != tabs[b].decl.name@);
            }
        }
        out
    }

    /// Reset a cache table: all of it, or the entries under an index prefix.
    pub fn reset_table(
        &mut self,
        access: &CacheAccess,
        resolved: &[ResolvedCacheIndexExpr],
        decl: &VarDecl,
    ) -> (r: Result<(), CacheError>)
        requires
            old(self).wf(),
        ensures
            final(self).wf(),
            final(self).persistent@ == old(self).persistent@,
            final(self).auto_dims@ == old(self).auto_dims@,
            final(self).tables@.len() == old(self).tables@.len(),
            forall|j: int|
                0 <= j < old(self).tables@.len() && (#[trigger] old(self).tables@[j]).decl.name@ != access.base@
                    ==> final(self).tables@[j] == old(self).tables@[j],
            (forall|i: int| 0 <= i < old(self).tables@.len() ==> (#[trigger] old(self).tables@[i]).decl.name@ != access.base@)
                ==> r == Err::<(), CacheError>(CacheError::MissingTable) && final(self).tables == old(self).tables,
            forall|i: int|
                0 <= i < old(self).tables@.len() && (#[trigger] old(self).tables@[i]).decl.name@ == access.base@ ==> {
                    let t = old(self).tables@[i];
                    &&& (!access.bracketed || access.indices@.len() == 0) ==> r is Ok
                        && final(self).tables@[i].entries@.len() == 0
                    &&& (access.bracketed && access.indices@.len() > 0 && !crate::cache_table::all_single(resolved@))
                        ==> r == Err::<(), CacheError>(CacheError::ResetNeedsScalarIndices)
                        && final(self).tables@[i] == t
                    &&& (access.bracketed && access.indices@.len() > 0 && crate::cache_table::all_single(resolved@))
                        ==> r is Ok && final(self).tables@[i].entries_view() == Map::new(
                        |k: Seq<usize>|
                            t.entries_view().contains_key(k) && !crate::cache_table::has_prefix(
                                k,
                                Seq::new(resolved@.len(), |j: int| resolved@[j]->Single_0),
                            ),
                        |k: Seq<usize>| t.entries_view()[k],
                    )
                },
    {
        let i = match self.find_table(access.base.as_str()) {
            Some(i) => i,
            None => return Err(CacheError::MissingTable),
        };
        let ghost tabs = self.tables@;
        let table = &mut self.tables[i];
        let out = reset_table_entries(table, access, resolved, decl);
        proof {
            assert forall|a: int, b: int|
                0 <= a < self.tables@.len() && 0 <= b < self.tables@.len() && a != b implies (
            #[trigger] self.tables@[a]).decl.name@ != (#[trigger] self.tables@[b]).decl.name@ by {
                assert(tabs[a].decl.name@ != tabs[b].decl.name@);
            }
        }
        out
    }
}

/// The sizes after addressing single positions `v_d` on the first `k`
/// indices, and what each selects.
proof fn lemma_singles(
    sizes: Seq<usize>,
    fixed: Seq<Option<usize>>,
    resolved: Seq<ResolvedCacheIndexExpr>,
    k: nat,
)
    requires
        k <= sizes.len() == fixed.len() == resolved.len(),
        forall|d: int| 0 <= d < resolved.len() ==> (#[trigger] resolved[d]) is Single,
        forall|d: int| 0 <= d < resolved.len() ==> (#[trigger] resolved[d])->Single_0 < usize::MAX,
    ensures
        resolve_dims_spec(sizes, fixed, resolved, k).1 is Ok <==> forall|d: int|
            0 <= d < k ==> !(#[trigger] fixed[d] matches Some(m) && resolved[d]->Single_0 + 1 > m),
        resolve_dims_spec(sizes, fixed, resolved, k).1 is Ok ==> {
            &&& resolve_dims_spec(sizes, fixed, resolved, k).1->Ok_0 == Seq::new(
                k,
                |d: int| (seq![resolved[d]->Single_0], true),
            )
            &&& resolve_dims_spec(sizes, fixed, resolved, k).0 == Seq::new(
                sizes.len(),
                |d: int|
                    if d < k && sizes[d] < resolved[d]->Single_0 + 1 {
                        (resolved[d]->Single_0 + 1) as usize
                    } else {
                        sizes[d]
                    },
            )
        },
    decreases k,
{
    if k > 0 {
        lemma_singles(sizes, fixed, resolved, (k - 1) as nat);
        let (sz, res) = resolve_dims_spec(sizes, fixed, resolved, (k - 1) as nat);
        let j = k - 1;
        assert(opt_get(resolved, j) == Some(resolved[j]));
        if res is Ok {
            assert(sz[j] == sizes[j]);
            let (s2, r2) = resolve_dims_spec(sizes, fixed, resolved, k);
            if r2 is Ok {
                assert(r2->Ok_0 =~= Seq::new(k, |d: int| (seq![resolved[d]->Single_0], true)));
                assert(s2 =~= Seq::new(
                    sizes.len(),
                    |d: int|
                        if d < k && sizes[d] < resolved[d]->Single_0 + 1 {
                            (resolved[d]->Single_0 + 1) as usize
                        } else {
                            sizes[d]
                        },
                ));
            }
        }
    }
}

/// Writing a tensor into a cache table at single-position indices and then
/// reading the table at the same indices gives back the written data, in
/// the table's element type and the entry shape, with the entries unchanged
/// by the read.
pub proof fn law_table_write_then_read(
    sizes: Seq<usize>,
    fixed: Seq<Option<usize>>,
    entries: Map<Seq<usize>, TensorView>,
    dtype: DType,
    init: Option<crate::graph::ScalarValue>,
    resolved: Seq<ResolvedCacheIndexExpr>,
    entry_shape: Seq<usize>,
    src: TensorView,
)
    requires
        sizes.len() == fixed.len() == resolved.len(),
        forall|d: int| 0 <= d < resolved.len() ==> (#[trigger] resolved[d]) is Single,
        forall|d: int| 0 <= d < resolved.len() ==> (#[trigger] resolved[d])->Single_0 < usize::MAX,
        !packed(dtype),
        shape_fits(entry_shape),
        entry_compatible(src.dtype, dtype),
        src.shape == entry_shape,
        src.data.len() == numel(entry_shape),
        table_write_spec(sizes, fixed, entries, true, resolved, entry_shape, src).1 is Ok,
    ensures
        ({
            let (sz1, w) = table_write_spec(sizes, fixed, entries, true, resolved, entry_shape, src);
            table_read_spec(sz1, fixed, w->Ok_0, dtype, init, true, resolved, entry_shape).1 == Ok::<
                (TensorView, Map<Seq<usize>, TensorView>),
                CacheError,
            >((TensorView { dtype, shape: entry_shape, data: src.data }, w->Ok_0))
        }),
{
    let n = sizes.len();
    lemma_singles(sizes, fixed, resolved, n);
    let (sz1, res1) = resolve_dims_spec(sizes, fixed, resolved, n);
    let sv = res1->Ok_0;
    lemma_dims_len(sizes, fixed, resolved, n);
    lemma_singles(sz1, fixed, resolved, n);
    let (sz2, res2) = resolve_dims_spec(sz1, fixed, resolved, n);
    assert(res2 is Ok);
    assert(res2->Ok_0 == sv);
    assert forall|d: int| 0 <= d < sv.len() implies (#[trigger] sv[d]).1 && sv[d].0.len() == 1 by {
        assert(sv[d] == (seq![resolved[d]->Single_0], true));
    }
    law_read_after_write(entries, sv, dtype, entry_shape, init, src);
}

/// After a persistent value is set, reading that name gives it back, and
/// every other name reads as before.
pub proof fn law_persistent_set_then_get(m: Map<Seq<char>, TensorValue>, name: Seq<char>, v: TensorValue)
    ensures
        m.insert(name, v).contains_key(name),
        m.insert(name, v)[name]@ == v@,
        forall|k: Seq<char>|
            k != name ==> (#[trigger] m.insert(name, v).contains_key(k) == m.contains_key(k)) && (
            m.contains_key(k) ==> m.insert(name, v)[k] == m[k]),
{
}

impl CacheStore {
    /// A store for the declared variables: an empty table for each cache
    /// table, and for each variable with growing dimensions its declared
    /// shape, zero growth, and each growing index's fixed limit.
    pub fn new(vars: &[VarDecl], model: &ModelLoader) -> (r: Result<CacheStore, CacheError>)
        ensures
            r matches Ok(s) ==> s.wf() && s.persistent@ == Map::<Seq<char>, TensorValue>::empty()
                && (forall|j: int| 0 <= j < s.tables@.len() ==> (#[trigger] s.tables@[j]).entries@.len() == 0)
                && forall|i: int|
                0 <= i < vars@.len() && (#[trigger] vars@[i]).is_cache_table_spec() ==> exists|j: int|
                    0 <= j < s.tables@.len() && (#[trigger] s.tables@[j]).decl.name@ == vars@[i].name@,
            r matches Err(e) ==> e == CacheError::UnknownSize,
    {
        let mut store = CacheStore::empty();
        let mut i: usize = 0;
        while i < vars.len()
            invariant
                i <= vars@.len(),
                store.wf(),
                store.persistent@ == Map::<Seq<char>, TensorValue>::empty(),
                forall|j: int| 0 <= j < store.tables@.len() ==> (#[trigger] store.tables@[j]).entries@.len() == 0,
                forall|a: int|
                    0 <= a < i && (#[trigger] vars@[a]).is_cache_table_spec() ==> exists|j: int|
                        0 <= j < store.tables@.len() && (#[trigger] store.tables@[j]).decl.name@ == vars@[a].name@,
            decreases vars@.len() - i,
        {
            let decl = &vars[i];
            if decl.is_cache_table() {
                let table = match build_cache_table(decl) {
                    Ok(t) => t,
                    Err(e) => return Err(CacheError::UnknownSize),
                };
                let ghost before = store.tables@;
                match store.find_table(decl.name.as_str()) {
                    Some(k) => {
                        store.tables.set(k, table);
                        proof {
                            assert forall|a: int, b: int|
                                0 <= a < store.tables@.len() && 0 <= b < store.tables@.len() && a != b implies (
                            #[trigger] store.tables@[a]).decl.name@ != (#[trigger] store.tables@[b]).decl.name@ by {
                                assert(before[a].decl.name@ != before[b].decl.name@);
                            }
                            assert forall|a: int|
                                0 <= a < i + 1 && (#[trigger] vars@[a]).is_cache_table_spec() implies exists|j: int|
                                    0 <= j < store.tables@.len() && (#[trigger] store.tables@[j]).decl.name@ == vars@[a].name@ by {
                                if a < i {
                                    let j = choose|j: int| 0 <= j < before.len() && (#[trigger] before[j]).decl.name@ == vars@[a].name@;
                                    assert(store.tables@[j].decl.name@ == vars@[a].name@);
                                } else {
                                    assert(store.tables@[k as int].decl.name@ == vars@[a].name@);
                                }
                            }
                        }
                    },
                    None => {
                        store.tables.push(table);
                        proof {
                            assert forall|a: int, b: int|
                                0 <= a < store.tables@.len() && 0 <= b < store.tables@.len() && a != b implies (
                            #[trigger] store.tables@[a]).decl.name@ != (#[trigger] store.tables@[b]).decl.name@ by {
                                if a < before.len() && b < before.len() {
                                    assert(before[a].decl.name@ != before[b].decl.name@);
                                } else if a < before.len() {
                                    assert(before[a].decl.name@ != decl.name@);
                                } else {
                                    assert(before[b].decl.name@ != decl.name@);
                                }
                            }
                            assert forall|a: int|
                                0 <= a < i + 1 && (#[trigger] vars@[a]).is_cache_table_spec() implies exists|j: int|
                                    0 <= j < store.tables@.len() && (#[trigger] store.tables@[j]).decl.name@ == vars@[a].name@ by {
                                if a < i {
                                    let j = choose|j: int| 0 <= j < before.len() && (#[trigger] before[j]).decl.name@ == vars@[a].name@;
                                    assert(store.tables@[j] == before[j]);
                                } else {
                                    assert(store.tables@[before.len() as int].decl.name@ == vars@[a].name@);
                                }
                            }
                        }
                    },
                }
            }
            if decl.has_auto_dim() {
                let base_shape = match model.resolve_shape(decl.dims.as_slice()) {
                    Ok(s) => s,
                    Err(_) => return Err(CacheError::UnknownSize),
                };
                let mut max: Vec<Option<usize>> = Vec::new();
                let mut counts: Vec<usize> = Vec::new();
                let mut k: usize = 0;
                while k < decl.auto_dim.len()
                    invariant
                        k <= decl.auto_dim@.len(),
                        max@.len() == k,
                        counts@.len() == k,
                    decreases decl.auto_dim@.len() - k,
                {
                    max.push(fixed_size_for(decl, decl.auto_dim[k].as_str()));
                    counts.push(0);
                    k = k + 1;
                }
                store.auto_dims.insert(decl.name.clone(), AutoDimState { base_shape, counts, max });
            }
            i = i + 1;
        }
        Ok(store)
    }
}

} // verus!
