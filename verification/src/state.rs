//! The variables of a running graph: values handed in from outside, values
//! local to the run, loop indices and the names written so far, with the
//! model file and the cache store behind them.
//!
//! Values live in slots; a name refers to a slot, and two names may refer to
//! the same slot, so that a write through one is seen through the other.
use vstd::prelude::*;
use vstd::hash_map::StringHashMap;
use vstd::hash_set::StringHashSet;
use crate::dtype::{storage_units, DType};
use crate::tensor::{numel, shape_fits, shape_fits_exec, copy_usizes, TensorValue, TensorView};
use crate::graph::{CacheAccess, InitError, MemoryKind, ScalarValue, VarDecl};
use crate::model_loader::{shape_of, ModelLoader};
use crate::oinf::LoadError;
use crate::cache::CacheError;
use crate::cache_store::{initial_value, initial_value_spec, CacheStore};
use crate::cache_access::{bump_spec, get_or_init_spec, read_post, reset_post, with_persistent, write_post, zero_view};
use crate::text::{first_index_of, split_once_char};
use crate::runtime::YieldSnapshot;

verus! {

/// Why a variable cannot be read, written or made.
#[derive(Clone, Copy, Debug, PartialEq, Eq, Structural)]
pub enum StateError {
    UnknownVariable,
    UnknownOutputVariable,
    UnknownCacheVariable,
    ShapeTooLarge,
    Load(LoadError),
    Cache(CacheError),
    Init(InitError),
}

/// The part of `name` before its first `[`, when it has one.
pub open spec fn base_name(name: Seq<char>) -> Option<Seq<char>> {
    match first_index_of(name, '[') {
        Some(i) => Some(name.subrange(0, i)),
        None => None,
    }
}

/// The declaration `name` refers to: its own, or for an indexed name
/// `base[...]` the one of `base`.
pub open spec fn decl_for_spec(vars: Map<Seq<char>, VarDecl>, name: Seq<char>) -> Option<VarDecl> {
    if vars.contains_key(name) {
        Some(vars[name])
    } else {
        match base_name(name) {
            Some(b) => if vars.contains_key(b) {
                Some(vars[b])
            } else {
                None
            },
            None => None,
        }
    }
}

/// The declaration `name` refers to.
pub fn decl_for<'a>(vars: &'a StringHashMap<VarDecl>, name: &str) -> (r: Option<&'a VarDecl>)
    ensures
        match decl_for_spec(vars@, name@) {
            Some(d) => r matches Some(x) && *x == d,
            None => r is None,
        },
{
    match vars.get(name) {
        Some(d) => Some(d),
        None => match split_once_char(name, '[') {
            Some((base, _)) => vars.get(base),
            None => None,
        },
    }
}

/// The declarations by name, with each one's shape and element type; the
/// first declaration whose dimensions do not resolve gives the error. A later
/// declaration of a name replaces an earlier one.
pub open spec fn decl_tables(decls: Seq<VarDecl>, sizes: Map<Seq<char>, usize>) -> Result<
    (Map<Seq<char>, VarDecl>, Map<Seq<char>, Seq<usize>>, Map<Seq<char>, DType>),
    LoadError,
>
    decreases decls.len(),
{
    if decls.len() == 0 {
        Ok((Map::empty(), Map::empty(), Map::empty()))
    } else {
        match decl_tables(decls.drop_last(), sizes) {
            Err(e) => Err(e),
            Ok((v, s, d)) => match shape_of(sizes, decls.last().dims@) {
                Err(e) => Err(e),
                Ok(sh) => Ok(
                    (
                        v.insert(decls.last().name@, decls.last()),
                        s.insert(decls.last().name@, sh),
                        d.insert(decls.last().name@, decls.last().dtype),
                    ),
                ),
            },
        }
    }
}

/// Shapes as sequences.
pub open spec fn shapes_view(m: Map<Seq<char>, Vec<usize>>) -> Map<Seq<char>, Seq<usize>> {
    m.map_values(|v: Vec<usize>| v@)
}

/// Slot contents as values.
pub open spec fn slot_views(s: Seq<TensorValue>) -> Seq<TensorView> {
    s.map_values(|t: TensorValue| t@)
}

/// The variables of one run of a graph.
pub struct RuntimeState {
    /// The graph's declared variables by name.
    pub vars: StringHashMap<VarDecl>,
    pub model: ModelLoader,
    pub cache: CacheStore,
    pub var_shapes: StringHashMap<Vec<usize>>,
    pub var_dtypes: StringHashMap<DType>,
    /// The values; names refer to them by position.
    pub slots: Vec<TensorValue>,
    /// Values handed in from outside the run.
    pub dynamic: StringHashMap<usize>,
    /// Values made during the run.
    pub locals: StringHashMap<usize>,
    /// Names declared by assignment during the run.
    pub temps: StringHashSet,
    /// Names written during the run.
    pub mutated: StringHashSet,
    pub loop_vars: StringHashMap<i64>,
    pub trace_enabled: bool,
    pub timer_enabled: bool,
}

impl RuntimeState {
    /// Every slot holds a well-formed value, every name refers to a slot,
    /// and the cache store is well formed.
    pub open spec fn wf(&self) -> bool {
        &&& self.cache.wf()
        &&& forall|i: int| 0 <= i < self.slots@.len() ==> (#[trigger] self.slots@[i]).wf()
        &&& forall|k: Seq<char>| #[trigger] self.dynamic@.contains_key(k) ==> self.dynamic@[k] < self.slots@.len()
        &&& forall|k: Seq<char>| #[trigger] self.locals@.contains_key(k) ==> self.locals@[k] < self.slots@.len()
    }

    /// The value a name has without loading anything: a value handed in
    /// first, then a local one, then a persistent one.
    pub open spec fn visible(&self, name: Seq<char>) -> Option<TensorView> {
        if self.dynamic@.contains_key(name) {
            Some(self.slots@[self.dynamic@[name] as int]@)
        } else if self.locals@.contains_key(name) {
            Some(self.slots@[self.locals@[name] as int]@)
        } else if self.cache.persistent@.contains_key(name) {
            Some(self.cache.persistent@[name]@)
        } else {
            None
        }
    }

    /// Same declarations, model, shapes, types, names handed in, loop
    /// indices, assignment and write records, and flags.
    pub open spec fn same_frame(&self, other: &RuntimeState) -> bool {
        &&& self.vars@ == other.vars@
        &&& self.model == other.model
        &&& self.var_shapes@ == other.var_shapes@
        &&& self.var_dtypes@ == other.var_dtypes@
        &&& self.dynamic@ == other.dynamic@
        &&& self.temps@ == other.temps@
        &&& self.mutated@ == other.mutated@
        &&& self.loop_vars@ == other.loop_vars@
        &&& self.trace_enabled == other.trace_enabled
        &&& self.timer_enabled == other.timer_enabled
    }

    /// Same frame, and every slot of `before` still there with its value.
    pub open spec fn extends(&self, before: &RuntimeState) -> bool {
        &&& self.same_frame(before)
        &&& before.slots@.len() <= self.slots@.len()
        &&& forall|i: int| 0 <= i < before.slots@.len() ==> #[trigger] self.slots@[i]@ == before.slots@[i]@
    }

    /// Nothing changed but, possibly, slots added at the end.
    pub open spec fn unchanged(&self, other: &RuntimeState) -> bool {
        &&& self.same_frame(other)
        &&& self.locals@ == other.locals@
        &&& self.cache.sv() == other.cache.sv()
        &&& self.cache.tables == other.cache.tables
        &&& slot_views(self.slots@) == slot_views(other.slots@)
    }

    /// A state for the declared variables of a graph over a model: each
    /// variable's shape resolved and its type recorded, the cache store made,
    /// and no values yet.
    pub fn new(decls: Vec<VarDecl>, model: ModelLoader, trace_enabled: bool, timer_enabled: bool) -> (r:
        Result<RuntimeState, StateError>)
        ensures
            decl_tables(decls@, model.sizes@) matches Err(e) ==> r == Err::<RuntimeState, StateError>(
                StateError::Load(e),
            ),
            r matches Err(e) ==> decl_tables(decls@, model.sizes@) is Ok ==> e == StateError::Cache(
                CacheError::UnknownSize,
            ),
            r matches Ok(s) ==> decl_tables(decls@, model.sizes@) matches Ok((v, sh, dt)) && s.wf()
                && s.vars@ == v && shapes_view(s.var_shapes@) == sh && s.var_dtypes@ == dt && s.model
                == model && s.cache.persistent@.is_empty() && s.slots@.len() == 0 && s.dynamic@.is_empty()
                && s.locals@.is_empty() && s.temps@.is_empty() && s.mutated@.is_empty()
                && s.loop_vars@.is_empty() && s.trace_enabled == trace_enabled && s.timer_enabled
                == timer_enabled,
    {
        let cache = CacheStore::new(decls.as_slice(), &model);
        let (vars, var_shapes, var_dtypes) = match build_decl_tables(decls, &model) {
            Ok(t) => t,
            Err(e) => return Err(StateError::Load(e)),
        };
        let cache = match cache {
            Ok(c) => c,
            Err(e) => return Err(StateError::Cache(e)),
        };
        Ok(RuntimeState {
            vars,
            model,
            cache,
            var_shapes,
            var_dtypes,
            slots: Vec::new(),
            dynamic: StringHashMap::new(),
            locals: StringHashMap::new(),
            temps: StringHashSet::new(),
            mutated: StringHashSet::new(),
            loop_vars: StringHashMap::new(),
            trace_enabled,
            timer_enabled,
        })
    }
}

/// The declarations by name, with each one's resolved shape and element type
/// (see `decl_tables`).
pub fn build_decl_tables(decls: Vec<VarDecl>, model: &ModelLoader) -> (r: Result<
    (StringHashMap<VarDecl>, StringHashMap<Vec<usize>>, StringHashMap<DType>),
    LoadError,
>)
    ensures
        match decl_tables(decls@, model.sizes@) {
            Ok((v, sh, dt)) => r matches Ok((rv, rs, rd)) && rv@ == v && shapes_view(rs@) == sh && rd@ == dt,
            Err(e) => r matches Err(re) && re == e,
        },
{
    let ghost all = decls@;
    let ghost sizes = model.sizes@;
    let mut rest = decls;
    let mut vars: StringHashMap<VarDecl> = StringHashMap::new();
    let mut var_shapes: StringHashMap<Vec<usize>> = StringHashMap::new();
    let mut var_dtypes: StringHashMap<DType> = StringHashMap::new();
    let mut i: usize = 0;
    let n = rest.len();
    assert(all.subrange(0, 0) =~= Seq::<VarDecl>::empty());
    assert(shapes_view(var_shapes@) =~= Map::<Seq<char>, Seq<usize>>::empty());
    while i < n
        invariant
            sizes == model.sizes@,
            all == decls@,
            n == all.len(),
            i <= n,
            rest@ == all.subrange(i as int, n as int),
            decl_tables(all.subrange(0, i as int), sizes) == Ok::<
                (Map<Seq<char>, VarDecl>, Map<Seq<char>, Seq<usize>>, Map<Seq<char>, DType>),
                LoadError,
            >((vars@, shapes_view(var_shapes@), var_dtypes@)),
        decreases n - i,
    {
        let d = rest.remove(0);
        proof {
            assert(all[i as int] == d);
        }
        let shape = match model.resolve_shape(d.dims.as_slice()) {
            Ok(s) => s,
            Err(e) => {
                proof {
                    lemma_decl_tables_err(all, i as int, sizes);
                }
                return Err(e);
            },
        };
        let ghost before = shapes_view(var_shapes@);
        var_shapes.insert(d.name.clone(), shape);
        var_dtypes.insert(d.name.clone(), d.dtype);
        vars.insert(d.name.clone(), d);
        proof {
            assert(shapes_view(var_shapes@) =~= before.insert(d.name@, shape@));
            assert(rest@ =~= all.subrange(i + 1, n as int));
            lemma_decl_tables_step(all, i as int, sizes);
        }
        i = i + 1;
    }
    assert(all.subrange(0, n as int) =~= all);
    Ok((vars, var_shapes, var_dtypes))
}

/// Only the loop indices changed, to `loops`.
pub open spec fn loop_vars_post(before: RuntimeState, after: RuntimeState, loops: Map<Seq<char>, i64>) -> bool {
    &&& after.loop_vars@ == loops
    &&& after.slots == before.slots
    &&& after.dynamic@ == before.dynamic@
    &&& after.locals@ == before.locals@
    &&& after.cache == before.cache
    &&& after.vars@ == before.vars@
    &&& after.model == before.model
    &&& after.var_shapes@ == before.var_shapes@
    &&& after.var_dtypes@ == before.var_dtypes@
    &&& after.temps@ == before.temps@
    &&& after.mutated@ == before.mutated@
    &&& after.trace_enabled == before.trace_enabled
    &&& after.timer_enabled == before.timer_enabled
}

/// `name` made a local name of `v`, in a new slot.
pub open spec fn set_local_post(before: RuntimeState, after: RuntimeState, name: Seq<char>, v: TensorView) -> bool {
    &&& slot_views(after.slots@) == slot_views(before.slots@).push(v)
    &&& after.locals@ == before.locals@.insert(name, before.slots@.len() as usize)
    &&& after.same_frame(&before)
    &&& after.cache == before.cache
}

/// `v` handed in under `name`, in a new slot.
pub open spec fn insert_dynamic_post(before: RuntimeState, after: RuntimeState, name: Seq<char>, v: TensorView) -> bool {
    &&& slot_views(after.slots@) == slot_views(before.slots@).push(v)
    &&& after.dynamic@ == before.dynamic@.insert(name, before.slots@.len() as usize)
    &&& after.locals@ == before.locals@
    &&& after.cache == before.cache
    &&& after.vars@ == before.vars@
    &&& after.model == before.model
    &&& after.loop_vars@ == before.loop_vars@
    &&& after.mutated@ == before.mutated@
    &&& after.var_shapes@ == before.var_shapes@
    &&& after.var_dtypes@ == before.var_dtypes@
    &&& after.temps@ == before.temps@
    &&& after.trace_enabled == before.trace_enabled
    &&& after.timer_enabled == before.timer_enabled
}

/// Where a value that is read from the model or made on first use is kept:
/// a persistent variable's in the cache store, any other's in a new slot
/// under `key` among the local values.
pub open spec fn keeps(before: RuntimeState, after: RuntimeState, key: Seq<char>, decl: VarDecl, v: TensorView) -> bool {
    &&& after.same_frame(&before)
    &&& after.cache.tables == before.cache.tables
    &&& if decl.kind == MemoryKind::Persistent {
        &&& after.cache.sv() == with_persistent(before.cache.sv(), key, v)
        &&& after.locals@ == before.locals@
        &&& slot_views(after.slots@) == slot_views(before.slots@)
    } else {
        &&& after.cache.sv() == before.cache.sv()
        &&& after.locals@ == before.locals@.insert(key, before.slots@.len() as usize)
        &&& slot_views(after.slots@) == slot_views(before.slots@).push(v)
    }
}

/// What reading `name` gives and leaves: a visible value as it is; else,
/// for a declared name, the tensor stored in the model file, else its
/// metadata value, else (persistent) the cache store's value made on first
/// use, else a value made from the declaration's initializer or zeros.
pub open spec fn get_tensor_post(before: RuntimeState, after: RuntimeState, name: Seq<char>, r: Result<
    TensorValue,
    StateError,
>) -> bool {
    match before.visible(name) {
        Some(v) => (r matches Ok(t) && t@ == v) && after.unchanged(&before),
        None => match decl_for_spec(before.vars@, name) {
            None => r == Err::<TensorValue, StateError>(StateError::UnknownVariable) && after.unchanged(&before),
            Some(d) => if before.model.vars@.contains_key(name) && before.model.vars@[name].has_data {
                match before.model.load_tensor_spec(name) {
                    Ok(v) => (r matches Ok(t) && t@ == v) && keeps(before, after, name, d, v),
                    Err(e) => r == Err::<TensorValue, StateError>(StateError::Load(e)) && after.unchanged(&before),
                }
            } else {
                match before.model.metadata_tensor_spec(name) {
                    Err(e) => r == Err::<TensorValue, StateError>(StateError::Load(e)) && after.unchanged(&before),
                    Ok(Some(v)) => (r matches Ok(t) && t@ == v) && keeps(before, after, name, d, v),
                    Ok(None) => if d.kind == MemoryKind::Persistent {
                        &&& after.same_frame(&before)
                        &&& after.locals@ == before.locals@
                        &&& slot_views(after.slots@) == slot_views(before.slots@)
                        &&& after.cache.tables == before.cache.tables
                        &&& match get_or_init_spec(before.cache.sv(), d.name@, d, before.model.sizes@) {
                            (Ok(v), s1) => (r matches Ok(t) && t@ == v) && after.cache.sv() == s1,
                            (Err(e), s1) => r == Err::<TensorValue, StateError>(StateError::Cache(e))
                                && after.cache.sv() == s1,
                        }
                    } else {
                        match shape_of(before.model.sizes@, d.dims@) {
                            Err(e) => r == Err::<TensorValue, StateError>(StateError::Load(e)) && after.unchanged(&before),
                            Ok(sh) => match initial_value_spec(d, sh) {
                                Err(e) => r == Err::<TensorValue, StateError>(StateError::Cache(e))
                                    && after.unchanged(&before),
                                Ok(v) => (r matches Ok(t) && t@ == v) && keeps(before, after, d.name@, d, v),
                            },
                        }
                    },
                }
            },
        },
    }
}

impl RuntimeState {
    /// Put `value` in a new slot.
    fn push_slot(&mut self, value: TensorValue) -> (idx: usize)
        requires
            old(self).wf(),
            value.wf(),
        ensures
            final(self).wf(),
            idx == old(self).slots@.len(),
            final(self).slots@ == old(self).slots@.push(value),
            slot_views(final(self).slots@) == slot_views(old(self).slots@).push(value@),
            final(self).same_frame(&*old(self)),
            final(self).locals@ == old(self).locals@,
            final(self).cache == old(self).cache,
            final(self).extends(&*old(self)),
    {
        let idx = self.slots.len();
        self.slots.push(value);
        proof {
            assert(slot_views(self.slots@) =~= slot_views(old(self).slots@).push(value@));
        }
        idx
    }

    /// The slot of a value handed in under `name`.
    pub fn dynamic_shared(&self, name: &str) -> (r: Option<usize>)
        ensures
            r == (if self.dynamic@.contains_key(name@) {
                Some(self.dynamic@[name@])
            } else {
                None
            }),
    {
        match self.dynamic.get(name) {
            Some(i) => Some(*i),
            None => None,
        }
    }

    /// Hand in `value` under `name`, a declared variable or an indexed name
    /// of one.
    pub fn insert_dynamic(&mut self, name: &str, value: TensorValue) -> (r: Result<(), StateError>)
        requires
            old(self).wf(),
            value.wf(),
        ensures
            final(self).wf(),
            decl_for_spec(old(self).vars@, name@) is None ==> r == Err::<(), StateError>(StateError::UnknownVariable)
                && *final(self) == *old(self),
            decl_for_spec(old(self).vars@, name@) is Some ==> r is Ok && insert_dynamic_post(
                *old(self),
                *final(self),
                name@,
                value@,
            ),
    {
        if decl_for(&self.vars, name).is_none() {
            return Err(StateError::UnknownVariable);
        }
        let idx = self.push_slot(value);
        self.dynamic.insert(name.to_string(), idx);
        Ok(())
    }

    /// Hand in the value of slot `slot` under `name`, a declared variable or
    /// an indexed name of one.
    pub fn insert_dynamic_shared(&mut self, name: &str, slot: usize) -> (r: Result<(), StateError>)
        requires
            old(self).wf(),
            slot < old(self).slots@.len(),
        ensures
            final(self).wf(),
            decl_for_spec(old(self).vars@, name@) is None ==> r == Err::<(), StateError>(StateError::UnknownVariable)
                && *final(self) == *old(self),
            decl_for_spec(old(self).vars@, name@) is Some ==> r is Ok && final(self).slots == old(self).slots
                && final(self).dynamic@ == old(self).dynamic@.insert(name@, slot) && final(self).locals@ == old(
                self,
            ).locals@ && final(self).cache == old(self).cache && final(self).vars@ == old(self).vars@
                && final(self).model == old(self).model && final(self).loop_vars@ == old(self).loop_vars@
                && final(self).mutated@ == old(self).mutated@ && final(self).var_shapes@ == old(self).var_shapes@
                && final(self).var_dtypes@ == old(self).var_dtypes@ && final(self).temps@ == old(self).temps@
                && final(self).trace_enabled == old(self).trace_enabled && final(self).timer_enabled == old(
                self,
            ).timer_enabled,
    {
        if decl_for(&self.vars, name).is_none() {
            return Err(StateError::UnknownVariable);
        }
        self.dynamic.insert(name.to_string(), slot);
        Ok(())
    }

    /// Make `value` the local value of `name`.
    pub fn set_local(&mut self, name: &str, value: TensorValue)
        requires
            old(self).wf(),
            value.wf(),
        ensures
            final(self).wf(),
            set_local_post(*old(self), *final(self), name@, value@),
    {
        let idx = self.push_slot(value);
        self.locals.insert(name.to_string(), idx);
    }

    /// Make the value of slot `slot` the local value of `name` too.
    pub fn set_local_shared(&mut self, name: &str, slot: usize)
        requires
            old(self).wf(),
            slot < old(self).slots@.len(),
        ensures
            final(self).wf(),
            final(self).slots == old(self).slots,
            final(self).locals@ == old(self).locals@.insert(name@, slot),
            final(self).same_frame(&*old(self)),
            final(self).cache == old(self).cache,
    {
        self.locals.insert(name.to_string(), slot);
    }

    /// Set the loop index `name`.
    pub fn set_loop_var(&mut self, name: &str, value: i64)
        requires
            old(self).wf(),
        ensures
            final(self).wf(),
            loop_vars_post(*old(self), *final(self), old(self).loop_vars@.insert(name@, value)),
    {
        self.loop_vars.insert(name.to_string(), value);
    }

    /// Drop the loop index `name`.
    pub fn clear_loop_var(&mut self, name: &str)
        requires
            old(self).wf(),
        ensures
            final(self).wf(),
            loop_vars_post(*old(self), *final(self), old(self).loop_vars@.remove(name@)),
    {
        self.loop_vars.remove(name);
    }

    /// Record that `name` was written.
    pub fn mark_mutated(&mut self, name: &str)
        ensures
            final(self).mutated@ == old(self).mutated@.insert(name@),
            final(self).slots == old(self).slots,
            final(self).dynamic@ == old(self).dynamic@,
            final(self).locals@ == old(self).locals@,
            final(self).loop_vars@ == old(self).loop_vars@,
            final(self).cache == old(self).cache,
            final(self).vars@ == old(self).vars@,
            final(self).model == old(self).model,
    {
        self.mutated.insert(name.to_string());
    }

    /// Whether `name` was written.
    pub fn was_mutated(&self, name: &str) -> (r: bool)
        ensures
            r == self.mutated@.contains(name@),
    {
        self.mutated.contains(name)
    }

    /// Store a value read or made for `key`: a persistent variable's in the
    /// cache store, any other's among the local values.
    fn keep(&mut self, key: &str, decl: &VarDecl, value: TensorValue)
        requires
            old(self).wf(),
            value.wf(),
        ensures
            final(self).wf(),
            keeps(*old(self), *final(self), key@, *decl, value@),
            final(self).extends(&*old(self)),
    {
        if decl.kind == MemoryKind::Persistent {
            self.cache.put_persistent(key, value);
        } else {
            let idx = self.push_slot(value);
            self.locals.insert(key.to_string(), idx);
        }
    }

    /// The value of `name` (see `get_tensor_post`).
    #[verifier::rlimit(40)]
    pub fn get_tensor(&mut self, name: &str) -> (r: Result<TensorValue, StateError>)
        requires
            old(self).wf(),
        ensures
            final(self).wf(),
            r matches Ok(t) ==> t.wf(),
            get_tensor_post(*old(self), *final(self), name@, r),
            final(self).extends(&*old(self)),
    {
        if let Some(i) = self.dynamic.get(name) {
            return Ok(self.slots[*i].clone_value());
        }
        if let Some(i) = self.locals.get(name) {
            return Ok(self.slots[*i].clone_value());
        }
        if let Some(t) = self.cache.get_persistent(name) {
            proof {
                assert(self.cache.persistent@[name@].wf());
            }
            return Ok(t);
        }
        let decl = match decl_for(&self.vars, name) {
            Some(d) => d.copy_decl(),
            None => return Err(StateError::UnknownVariable),
        };
        let has_data = match self.model.var_info(name) {
            Some(info) => info.has_data,
            None => false,
        };
        if has_data {
            let value = match self.model.load_tensor(name) {
                Ok(v) => v,
                Err(e) => return Err(StateError::Load(e)),
            };
            let copy = value.clone_value();
            self.keep(name, &decl, value);
            return Ok(copy);
        }
        match self.model.load_metadata_tensor(name) {
            Err(e) => return Err(StateError::Load(e)),
            Ok(Some(value)) => {
                let copy = value.clone_value();
                self.keep(name, &decl, value);
                return Ok(copy);
            },
            Ok(None) => {},
        }
        if decl.kind == MemoryKind::Persistent {
            return match self.cache.init_persistent(decl.name.as_str(), &decl, &self.model) {
                Ok(t) => Ok(t),
                Err(e) => Err(StateError::Cache(e)),
            };
        }
        let shape = match self.model.resolve_shape(decl.dims.as_slice()) {
            Ok(s) => s,
            Err(e) => return Err(StateError::Load(e)),
        };
        let value = match initial_value(&decl, shape.as_slice()) {
            Ok(v) => v,
            Err(e) => return Err(StateError::Cache(e)),
        };
        let copy = value.clone_value();
        self.keep(decl.name.as_str(), &decl, value);
        Ok(copy)
    }
}

/// What `get_tensor_shared` gives and leaves: the slot of a value handed in
/// or a local one; else the value `get_tensor` reads (see
/// `get_tensor_post`), in a new slot of its own.
pub open spec fn get_shared_post(before: RuntimeState, after: RuntimeState, name: Seq<char>, r: Result<
    usize,
    StateError,
>) -> bool {
    if before.dynamic@.contains_key(name) {
        r == Ok::<usize, StateError>(before.dynamic@[name]) && after == before
    } else if before.locals@.contains_key(name) {
        r == Ok::<usize, StateError>(before.locals@[name]) && after == before
    } else {
        exists|mid: RuntimeState, t: Result<TensorValue, StateError>|
            #![trigger get_tensor_post(before, mid, name, t)]
            get_tensor_post(before, mid, name, t) && match t {
                Ok(v) => {
                    &&& r == Ok::<usize, StateError>(mid.slots@.len() as usize)
                    &&& after.same_frame(&mid)
                    &&& after.locals@ == mid.locals@
                    &&& after.cache == mid.cache
                    &&& slot_views(after.slots@) == slot_views(mid.slots@).push(v@)
                },
                Err(e) => r == Err::<usize, StateError>(e) && after == mid,
            }
    }
}

impl RuntimeState {
    /// The slot holding the value of `name` (see `get_shared_post`).
    pub fn get_tensor_shared(&mut self, name: &str) -> (r: Result<usize, StateError>)
        requires
            old(self).wf(),
        ensures
            final(self).wf(),
            r matches Ok(i) ==> i < final(self).slots@.len(),
            get_shared_post(*old(self), *final(self), name@, r),
            final(self).extends(&*old(self)),
    {
        if let Some(i) = self.dynamic.get(name) {
            return Ok(*i);
        }
        if let Some(i) = self.locals.get(name) {
            return Ok(*i);
        }
        let t = self.get_tensor(name);
        let ghost mid = *self;
        match t {
            Ok(v) => {
                let ghost tv = v;
                let idx = self.push_slot(v);
                proof {
                    assert(get_tensor_post(*old(self), mid, name@, Ok::<TensorValue, StateError>(tv)));
                }
                Ok(idx)
            },
            Err(e) => {
                proof {
                    assert(get_tensor_post(*old(self), mid, name@, Err::<TensorValue, StateError>(e)));
                }
                Err(e)
            },
        }
    }

    /// Make `dst` a local name of the value of `src`, sharing its slot, and
    /// record that `dst` was written.
    pub fn transfer_var(&mut self, src: &str, dst: &str) -> (r: Result<(), StateError>)
        requires
            old(self).wf(),
        ensures
            final(self).wf(),
            transfer_post(*old(self), *final(self), src@, dst@, r),

    {
        let i = self.get_tensor_shared(src)?;
        let ghost mid = *self;
        self.set_local_shared(dst, i);
        self.mark_mutated(dst);
        proof {
            assert(get_shared_post(*old(self), mid, src@, Ok::<usize, StateError>(i)));
        }
        Ok(())
    }
}

/// The value an output starts with: the initializer of its declaration, or
/// zeros.
pub open spec fn output_value_spec(dtype: DType, init: Option<ScalarValue>, shape: Seq<usize>) -> Result<
    TensorView,
    StateError,
> {
    if !shape_fits(shape) {
        Err(StateError::ShapeTooLarge)
    } else {
        match init {
            Some(v) => match v.fill_spec(dtype) {
                Ok(_) => Ok(TensorView { dtype, shape, data: Seq::new(numel(shape), |i: int| v.bits) }),
                Err(e) => Err(StateError::Init(e)),
            },
            None => Ok(zero_view(dtype, shape)),
        }
    }
}

/// The initializer declared for `name`, if any.
pub open spec fn declared_init(vars: Map<Seq<char>, VarDecl>, name: Seq<char>) -> Option<ScalarValue> {
    if vars.contains_key(name) {
        vars[name].init
    } else {
        None
    }
}

/// Only the cache store changed.
pub open spec fn only_cache_changed(before: RuntimeState, after: RuntimeState) -> bool {
    &&& after.same_frame(&before)
    &&& after.locals@ == before.locals@
    &&& after.slots == before.slots
}

impl RuntimeState {
    /// Declare `name` by assignment: record its shape and type, and give it
    /// a zero value when it has no local one.
    pub fn register_assign(&mut self, name: &str, dtype: DType, dims: &[String]) -> (r: Result<(), StateError>)
        requires
            old(self).wf(),
        ensures
            final(self).wf(),
            register_assign_post(*old(self), *final(self), name@, dtype, dims@, r),

    {
        let shape = match self.model.resolve_shape(dims) {
            Ok(s) => s,
            Err(e) => return Err(StateError::Load(e)),
        };
        let has_local = self.locals.contains_key(name);
        if !has_local && !shape_fits_exec(&shape) {
            return Err(StateError::ShapeTooLarge);
        }
        let ghost before = shapes_view(self.var_shapes@);
        self.var_shapes.insert(name.to_string(), copy_usizes(shape.as_slice()));
        self.var_dtypes.insert(name.to_string(), dtype);
        self.temps.insert(name.to_string());
        proof {
            assert(shapes_view(self.var_shapes@) =~= before.insert(name@, shape@));
        }
        if !has_local {
            let value = TensorValue::zeros(dtype, shape.as_slice());
            assert(value.data@ =~= Seq::new(storage_units(dtype, numel(shape@)), |i: int| 0u64));
            assert(value@ =~= zero_view(dtype, shape@));
            self.set_local(name, value);
        }
        Ok(())
    }

    /// Give the output `name` a value when it has none anywhere: the
    /// initializer of its declaration, or zeros, in its recorded shape and
    /// type.
    pub fn ensure_output(&mut self, name: &str) -> (r: Result<(), StateError>)
        requires
            old(self).wf(),
        ensures
            final(self).wf(),
            ensure_output_post(*old(self), *final(self), name@, r),

    {
        if self.dynamic.contains_key(name) || self.locals.contains_key(name) || self.cache.has_persistent(name)
            || self.model.var_info(name).is_some() {
            return Ok(());
        }
        let dtype = match self.var_dtypes.get(name) {
            Some(d) => *d,
            None => return Err(StateError::UnknownOutputVariable),
        };
        let shape = match self.var_shapes.get(name) {
            Some(s) => copy_usizes(s.as_slice()),
            None => return Err(StateError::UnknownOutputVariable),
        };
        if !shape_fits_exec(&shape) {
            return Err(StateError::ShapeTooLarge);
        }
        let init = match self.vars.get(name) {
            Some(d) => d.init,
            None => None,
        };
        let value = match init {
            Some(v) => match v.to_tensor_value(dtype, shape.as_slice()) {
                Ok(t) => t,
                Err(e) => return Err(StateError::Init(e)),
            },
            None => {
                let t = TensorValue::zeros(dtype, shape.as_slice());
                assert(t.data@ =~= Seq::new(storage_units(dtype, numel(shape@)), |i: int| 0u64));
                assert(t@ =~= zero_view(dtype, shape@));
                t
            },
        };
        self.set_local(name, value);
        Ok(())
    }

    /// Read the cached variable `src` into the local `dst` (see `read_post`).
    pub fn cache_read(&mut self, src: &CacheAccess, dst: &str) -> (r: Result<(), StateError>)
        requires
            old(self).wf(),
        ensures
            final(self).wf(),
            cache_read_post(*old(self), *final(self), *src, dst@, r),

    {
        let decl = match self.vars.get(src.base.as_str()) {
            Some(d) => d,
            None => return Err(StateError::UnknownCacheVariable),
        };
        let t = self.cache.read(src, decl, &self.vars, &self.model, &self.loop_vars);
        let ghost tg = t;
        match t {
            Ok(v) => {
                self.set_local(dst, v);
                assert(read_post(old(self).cache, self.cache, *src, old(self).vars@[src.base@], old(self).vars@, old(self).model.sizes@, old(self).loop_vars@, tg));
                Ok(())
            },
            Err(e) => {
                assert(read_post(old(self).cache, self.cache, *src, old(self).vars@[src.base@], old(self).vars@, old(self).model.sizes@, old(self).loop_vars@, tg));
                Err(StateError::Cache(e))
            },
        }
    }

    /// Write the value of `src` (see `get_tensor_post`) to the cached
    /// variable `dst` (see `write_post`).
    pub fn cache_write(&mut self, src: &str, dst: &CacheAccess) -> (r: Result<(), StateError>)
        requires
            old(self).wf(),
        ensures
            final(self).wf(),
            cache_write_post(*old(self), *final(self), src@, *dst, r),

    {
        if !self.vars.contains_key(dst.base.as_str()) {
            return Err(StateError::UnknownCacheVariable);
        }
        let t = self.get_tensor(src);
        let ghost mid = *self;
        let ghost tg = t;
        let value = match t {
            Ok(v) => v,
            Err(e) => {
                assert(get_tensor_post(*old(self), mid, src@, tg));
                return Err(e);
            },
        };
        let decl = match self.vars.get(dst.base.as_str()) {
            Some(d) => d,
            None => return Err(StateError::UnknownCacheVariable),
        };
        let rc = self.cache.write(&value, dst, decl, &self.vars, &self.model, &self.loop_vars);
        assert(get_tensor_post(*old(self), mid, src@, tg));
        assert(write_post(mid.cache, self.cache, value@, *dst, mid.vars@[dst.base@], mid.vars@, mid.model.sizes@, mid.loop_vars@, rc));
        match rc {
            Ok(_) => Ok(()),
            Err(e) => Err(StateError::Cache(e)),
        }
    }

    /// Add `amount` to (or subtract it from) the persistent scalar `target`
    /// (see `bump_spec`).
    pub fn cache_bump(&mut self, target: &str, amount: i64, decrement: bool) -> (r: Result<(), StateError>)
        requires
            old(self).wf(),
            !(decrement && amount == i64::MIN),
        ensures
            final(self).wf(),
            cache_bump_post(*old(self), *final(self), target@, amount, decrement, r),

    {
        match self.cache.bump(target, amount, decrement, &self.vars, &self.model) {
            Ok(_) => Ok(()),
            Err(e) => Err(StateError::Cache(e)),
        }
    }

    /// Reset the cached variable `target` (see `reset_post`).
    pub fn cache_reset(&mut self, target: &CacheAccess) -> (r: Result<(), StateError>)
        requires
            old(self).wf(),
        ensures
            final(self).wf(),
            cache_reset_post(*old(self), *final(self), *target, r),

    {
        let decl = match self.vars.get(target.base.as_str()) {
            Some(d) => d,
            None => return Err(StateError::UnknownCacheVariable),
        };
        let rc = self.cache.reset(target, decl, &self.vars, &self.model, &self.loop_vars);
        assert(reset_post(old(self).cache, self.cache, *target, old(self).vars@[target.base@], old(self).vars@, old(self).model.sizes@, old(self).loop_vars@, rc));
        match rc {
            Ok(_) => Ok(()),
            Err(e) => Err(StateError::Cache(e)),
        }
    }
}

/// Yielding `v`: the slot `get_tensor_shared` gives is handed in under `v`
/// (a declared name or an indexed name of one), and its value is yielded.
pub open spec fn yield_one(a: RuntimeState, b: RuntimeState, v: Seq<char>, r: Result<TensorView, StateError>) -> bool {
    exists|mid: RuntimeState, ri: Result<usize, StateError>|
        #![trigger get_shared_post(a, mid, v, ri)]
        get_shared_post(a, mid, v, ri) && yield_step(mid, b, v, ri, r)
}

/// After `get_tensor_shared` gave `ri` and left `mid`: the slot is handed
/// in under `v`, a declared name or an indexed name of one.
pub open spec fn yield_step(
    mid: RuntimeState,
    b: RuntimeState,
    v: Seq<char>,
    ri: Result<usize, StateError>,
    r: Result<TensorView, StateError>,
) -> bool {
    match ri {
        Err(e) => r == Err::<TensorView, StateError>(e) && b == mid,
        Ok(i) => if decl_for_spec(mid.vars@, v) is None {
            r == Err::<TensorView, StateError>(StateError::UnknownVariable) && b == mid
        } else {
            &&& r == Ok::<TensorView, StateError>(mid.slots@[i as int]@)
            &&& b.slots == mid.slots
            &&& b.dynamic@ == mid.dynamic@.insert(v, i)
            &&& b.locals@ == mid.locals@
            &&& b.cache == mid.cache
            &&& b.vars@ == mid.vars@
            &&& b.model == mid.model
            &&& b.var_shapes@ == mid.var_shapes@
            &&& b.var_dtypes@ == mid.var_dtypes@
            &&& b.temps@ == mid.temps@
            &&& b.mutated@ == mid.mutated@
            &&& b.loop_vars@ == mid.loop_vars@
            &&& b.trace_enabled == mid.trace_enabled
            &&& b.timer_enabled == mid.timer_enabled
        },
    }
}

/// The values a snapshot holds, in order.
pub open spec fn snapshot_values(snap: YieldSnapshot) -> Seq<TensorView> {
    Seq::new(snap.vars@.len(), |j: int| snap.vars@[j].1@)
}

/// The states that yielding the first `n` names goes through, in order,
/// giving the values `vals`.
pub open spec fn yield_trace(states: Seq<RuntimeState>, vars: Seq<String>, vals: Seq<TensorView>, n: nat) -> bool {
    &&& states.len() == n + 1
    &&& forall|j: int|
        0 <= j < n ==> #[trigger] yield_one(states[j], states[j + 1], vars[j]@, Ok::<TensorView, StateError>(vals[j]))
}

/// Awaiting `v`: its value handed in becomes its local value too; else the
/// slot `get_tensor_shared` gives does.
pub open spec fn await_one(a: RuntimeState, b: RuntimeState, v: Seq<char>, r: Result<(), StateError>) -> bool {
    if a.dynamic@.contains_key(v) {
        r is Ok && b.same_frame(&a) && b.cache == a.cache && b.slots == a.slots && b.locals@ == a.locals@.insert(
            v,
            a.dynamic@[v],
        )
    } else {
        exists|mid: RuntimeState, ri: Result<usize, StateError>|
            #![trigger get_shared_post(a, mid, v, ri)]
            get_shared_post(a, mid, v, ri) && match ri {
                Ok(i) => r is Ok && b.same_frame(&mid) && b.cache == mid.cache && b.slots == mid.slots
                    && b.locals@ == mid.locals@.insert(v, i),
                Err(e) => r == Err::<(), StateError>(e) && b == mid,
            }
    }
}

/// The states that awaiting the first `n` names goes through, in order.
pub open spec fn await_trace(states: Seq<RuntimeState>, vars: Seq<String>, n: nat) -> bool {
    &&& states.len() == n + 1
    &&& forall|j: int| 0 <= j < n ==> #[trigger] await_one(states[j], states[j + 1], vars[j]@, Ok::<(), StateError>(()))
}

impl RuntimeState {
    /// Yield `vars`: each one's value (see `get_tensor_shared`) is handed in
    /// under its name and put in the snapshot, in order (see `yield_one`).
    pub fn handle_yield(&mut self, vars: &[String]) -> (r: Result<YieldSnapshot, StateError>)
        requires
            old(self).wf(),
        ensures
            final(self).wf(),
            yield_post(*old(self), *final(self), vars@, r),

    {
        let mut out: Vec<(String, TensorValue)> = Vec::new();
        let ghost mut states: Seq<RuntimeState> = seq![*self];
        let mut k: usize = 0;
        while k < vars.len()
            invariant
                self.wf(),
                k <= vars@.len(),
                out@.len() == k,
                forall|j: int| 0 <= j < k ==> (#[trigger] out@[j]).0@ == vars@[j]@ && out@[j].1.wf(),
                yield_trace(states, vars@, Seq::new(k as nat, |j: int| out@[j].1@), k as nat),
                states[0] == *old(self),
                states.last() == *self,
            decreases vars@.len() - k,
        {
            let ghost before = *self;
            let ghost vals = Seq::new(k as nat, |j: int| out@[j].1@);
            let ri = self.get_tensor_shared(vars[k].as_str());
            let ghost mid = *self;
            let i = match ri {
                Ok(i) => i,
                Err(e) => {
                    assert(get_shared_post(before, mid, vars@[k as int]@, ri));
                    assert(yield_one(before, *self, vars@[k as int]@, Err::<TensorView, StateError>(e)));
                    assert(yield_trace(states, vars@, vals, k as nat));
                    assert(states.last() == before);
                    return Err(e);
                },
            };
            match self.insert_dynamic_shared(vars[k].as_str(), i) {
                Ok(()) => {},
                Err(e) => {
                    assert(get_shared_post(before, mid, vars@[k as int]@, ri));
                    assert(yield_one(before, *self, vars@[k as int]@, Err::<TensorView, StateError>(e)));
                    assert(yield_trace(states, vars@, vals, k as nat));
                    assert(states.last() == before);
                    assert(0 <= (k as int) < vars@.len() && yield_trace(states, vars@, vals, (k as int) as nat)
                        && states[0] == *old(self) && yield_one(
                        states.last(),
                        *self,
                        vars@[k as int]@,
                        Err::<TensorView, StateError>(e),
                    ));
                    return Err(e);
                },
            }
            let value = self.slots[i].clone_value();
            out.push((vars[k].clone(), value));
            proof {
                assert(get_shared_post(before, mid, vars@[k as int]@, ri));
                let nvals = Seq::new((k + 1) as nat, |j: int| out@[j].1@);
                assert(yield_one(before, *self, vars@[k as int]@, Ok::<TensorView, StateError>(nvals[k as int])));
                let nstates = states.push(*self);
                assert forall|j: int| 0 <= j < k + 1 implies #[trigger] yield_one(
                    nstates[j],
                    nstates[j + 1],
                    vars@[j]@,
                    Ok::<TensorView, StateError>(nvals[j]),
                ) by {
                    if j < k {
                        assert(nstates[j] == states[j] && nstates[j + 1] == states[j + 1] && nvals[j] == vals[j]);
                        assert(yield_one(states[j], states[j + 1], vars@[j]@, Ok::<TensorView, StateError>(vals[j])));
                    }
                }
                states = nstates;
            }
            k = k + 1;
        }
        let snap = YieldSnapshot { vars: out };
        assert(snapshot_values(snap) =~= Seq::new(k as nat, |j: int| snap.vars@[j].1@));
        Ok(snap)
    }

    /// Await `vars`: each one's value handed in becomes its local value
    /// too; a name with none gets the slot `get_tensor_shared` gives (see
    /// `await_one`).
    pub fn handle_await(&mut self, vars: &[String]) -> (r: Result<(), StateError>)
        requires
            old(self).wf(),
        ensures
            final(self).wf(),
            await_post(*old(self), *final(self), vars@, r),

    {
        let ghost mut states: Seq<RuntimeState> = seq![*self];
        let mut k: usize = 0;
        while k < vars.len()
            invariant
                self.wf(),
                k <= vars@.len(),
                await_trace(states, vars@, k as nat),
                states[0] == *old(self),
                states.last() == *self,
            decreases vars@.len() - k,
        {
            let ghost before = *self;
            let name = vars[k].as_str();
            if let Some(i) = self.dynamic_shared(name) {
                self.set_local_shared(name, i);
            } else {
                let ri = self.get_tensor_shared(name);
                let ghost mid = *self;
                match ri {
                    Ok(i) => {
                        self.set_local_shared(name, i);
                        assert(get_shared_post(before, mid, vars@[k as int]@, ri));
                    },
                    Err(e) => {
                        assert(get_shared_post(before, mid, vars@[k as int]@, ri));
                        assert(await_one(before, *self, vars@[k as int]@, Err::<(), StateError>(e)));
                        assert(await_trace(states, vars@, k as nat));
                        assert(states.last() == before);
                        return Err(e);
                    },
                }
            }
            proof {
                assert(await_one(before, *self, vars@[k as int]@, Ok::<(), StateError>(())));
                let nstates = states.push(*self);
                assert forall|j: int| 0 <= j < k + 1 implies #[trigger] await_one(
                    nstates[j],
                    nstates[j + 1],
                    vars@[j]@,
                    Ok::<(), StateError>(()),
                ) by {
                    if j < k {
                        assert(nstates[j] == states[j] && nstates[j + 1] == states[j + 1]);
                    }
                }
                states = nstates;
            }
            k = k + 1;
        }
        Ok(())
    }
}

/// What `register_assign` gives and leaves.
pub open spec fn register_assign_post(before: RuntimeState, after: RuntimeState, name: Seq<char>, dtype: DType, dims: Seq<String>, r: Result<(), StateError>) -> bool {
    &&& (match shape_of(before.model.sizes@, dims) {
        Err(e) => r == Err::<(), StateError>(StateError::Load(e)) && after == before,
        Ok(sh) => if !before.locals@.contains_key(name) && !shape_fits(sh) {
            r == Err::<(), StateError>(StateError::ShapeTooLarge) && after == before
        } else {
            &&& r is Ok
            &&& shapes_view(after.var_shapes@) == shapes_view(before.var_shapes@).insert(name, sh)
            &&& after.var_dtypes@ == before.var_dtypes@.insert(name, dtype)
            &&& after.temps@ == before.temps@.insert(name)
            &&& after.dynamic@ == before.dynamic@
            &&& after.mutated@ == before.mutated@
            &&& after.loop_vars@ == before.loop_vars@
            &&& after.vars@ == before.vars@
            &&& after.model == before.model
            &&& after.cache == before.cache
            &&& if before.locals@.contains_key(name) {
                after.locals@ == before.locals@ && after.slots == before.slots
            } else {
                after.locals@ == before.locals@.insert(name, before.slots@.len() as usize)
                    && slot_views(after.slots@) == slot_views(before.slots@).push(
                    zero_view(dtype, sh),
                )
            }
        }
    })
}

/// What `ensure_output` gives and leaves.
pub open spec fn ensure_output_post(before: RuntimeState, after: RuntimeState, name: Seq<char>, r: Result<(), StateError>) -> bool {
    &&& (before.dynamic@.contains_key(name) || before.locals@.contains_key(name)
        || before.cache.persistent@.contains_key(name) || before.model.vars@.contains_key(name)
        ==> r is Ok && after == before)
    &&& (!(before.dynamic@.contains_key(name) || before.locals@.contains_key(name)
        || before.cache.persistent@.contains_key(name) || before.model.vars@.contains_key(name))
        ==> if !(before.var_dtypes@.contains_key(name) && before.var_shapes@.contains_key(name)) {
        r == Err::<(), StateError>(StateError::UnknownOutputVariable) && after == before
    } else {
        match output_value_spec(
            before.var_dtypes@[name],
            declared_init(before.vars@, name),
            before.var_shapes@[name]@,
        ) {
            Err(e) => r == Err::<(), StateError>(e) && after == before,
            Ok(v) => r is Ok && after.same_frame(&before) && after.cache == before.cache
                && after.locals@ == before.locals@.insert(name, before.slots@.len() as usize)
                && slot_views(after.slots@) == slot_views(before.slots@).push(v),
        }
    })
}

/// What `cache_read` gives and leaves.
pub open spec fn cache_read_post(before: RuntimeState, after: RuntimeState, src: CacheAccess, dst: Seq<char>, r: Result<(), StateError>) -> bool {
    &&& (!before.vars@.contains_key(src.base@) ==> r == Err::<(), StateError>(
        StateError::UnknownCacheVariable,
    ) && after == before)
    &&& (before.vars@.contains_key(src.base@) ==> exists|t: Result<TensorValue, CacheError>|
        #![trigger read_post(before.cache, after.cache, src, before.vars@[src.base@], before.vars@, before.model.sizes@, before.loop_vars@, t)]
        read_post(
            before.cache,
            after.cache,
            src,
            before.vars@[src.base@],
            before.vars@,
            before.model.sizes@,
            before.loop_vars@,
            t,
        ) && after.same_frame(&before) && match t {
            Ok(v) => r is Ok && after.locals@ == before.locals@.insert(
                dst,
                before.slots@.len() as usize,
            ) && slot_views(after.slots@) == slot_views(before.slots@).push(v@),
            Err(e) => r == Err::<(), StateError>(StateError::Cache(e)) && after.locals@ == before.locals@ && after.slots == before.slots,
        })
}

/// What `cache_write` gives and leaves.
pub open spec fn cache_write_post(before: RuntimeState, after: RuntimeState, src: Seq<char>, dst: CacheAccess, r: Result<(), StateError>) -> bool {
    &&& (!before.vars@.contains_key(dst.base@) ==> r == Err::<(), StateError>(
        StateError::UnknownCacheVariable,
    ) && after == before)
    &&& (before.vars@.contains_key(dst.base@) ==> exists|mid: RuntimeState, t: Result<TensorValue, StateError>|
        #![trigger get_tensor_post(before, mid, src, t)]
        get_tensor_post(before, mid, src, t) && match t {
            Err(e) => r == Err::<(), StateError>(e) && after == mid,
            Ok(v) => only_cache_changed(mid, after) && exists|rc: Result<(), CacheError>|
                #![trigger write_post(mid.cache, after.cache, v@, dst, mid.vars@[dst.base@], mid.vars@, mid.model.sizes@, mid.loop_vars@, rc)]
                write_post(
                    mid.cache,
                    after.cache,
                    v@,
                    dst,
                    mid.vars@[dst.base@],
                    mid.vars@,
                    mid.model.sizes@,
                    mid.loop_vars@,
                    rc,
                ) && match rc {
                    Ok(_) => r is Ok,
                    Err(e) => r == Err::<(), StateError>(StateError::Cache(e)),
                },
        })
}

/// What `cache_bump` gives and leaves.
pub open spec fn cache_bump_post(before: RuntimeState, after: RuntimeState, target: Seq<char>, amount: i64, decrement: bool, r: Result<(), StateError>) -> bool {
    &&& (only_cache_changed(before, after))
    &&& (after.cache.tables == before.cache.tables)
    &&& (match bump_spec(before.cache.sv(), target, amount, decrement, before.vars@, before.model.sizes@) {
        (Ok(_), s1) => r is Ok && after.cache.sv() == s1,
        (Err(e), s1) => r == Err::<(), StateError>(StateError::Cache(e)) && after.cache.sv() == s1
    })
}

/// What `cache_reset` gives and leaves.
pub open spec fn cache_reset_post(before: RuntimeState, after: RuntimeState, target: CacheAccess, r: Result<(), StateError>) -> bool {
    &&& (!before.vars@.contains_key(target.base@) ==> r == Err::<(), StateError>(
        StateError::UnknownCacheVariable,
    ) && after == before)
    &&& (before.vars@.contains_key(target.base@) ==> only_cache_changed(before, after)
        && exists|rc: Result<(), CacheError>|
        #![trigger reset_post(before.cache, after.cache, target, before.vars@[target.base@], before.vars@, before.model.sizes@, before.loop_vars@, rc)]
        reset_post(
            before.cache,
            after.cache,
            target,
            before.vars@[target.base@],
            before.vars@,
            before.model.sizes@,
            before.loop_vars@,
            rc,
        ) && match rc {
            Ok(_) => r is Ok,
            Err(e) => r == Err::<(), StateError>(StateError::Cache(e)),
        })
}

/// What `transfer_var` gives and leaves.
pub open spec fn transfer_post(before: RuntimeState, after: RuntimeState, src: Seq<char>, dst: Seq<char>, r: Result<(), StateError>) -> bool {
    &&& (r matches Err(e) ==> get_shared_post(before, after, src, Err::<usize, StateError>(e)))
    &&& (r is Ok ==> exists|mid: RuntimeState, i: usize|
        #![trigger get_shared_post(before, mid, src, Ok::<usize, StateError>(i))]
        get_shared_post(before, mid, src, Ok::<usize, StateError>(i)) && i < mid.slots@.len()
            && after.slots == mid.slots && after.locals@ == mid.locals@.insert(dst, i)
            && after.mutated@ == mid.mutated@.insert(dst) && after.dynamic@ == mid.dynamic@
            && after.cache == mid.cache && after.loop_vars@ == mid.loop_vars@
            && after.vars@ == mid.vars@ && after.model == mid.model)
}

/// What `handle_yield` gives and leaves.
pub open spec fn yield_post(before: RuntimeState, after: RuntimeState, vars: Seq<String>, r: Result<YieldSnapshot, StateError>) -> bool {
    &&& (r matches Ok(snap) ==> snap.vars.len() == vars.len() && (forall|j: int|
        0 <= j < vars.len() ==> (#[trigger] snap.vars[j]).0@ == vars[j]@ && snap.vars[j].1.wf())
        && exists|states: Seq<RuntimeState>|
        #![trigger yield_trace(states, vars, snapshot_values(snap), vars.len())]
        yield_trace(states, vars, snapshot_values(snap), vars.len())
            && states[0] == before && states.last() == after)
    &&& (r matches Err(e) ==> exists|states: Seq<RuntimeState>, vals: Seq<TensorView>, j: nat|
        #![trigger yield_trace(states, vars, vals, j)]
        j < vars.len() && yield_trace(states, vars, vals, j) && states[0] == before && yield_one(
            states.last(),
            after,
            vars[j as int]@,
            Err::<TensorView, StateError>(e),
        ))
}

/// What `handle_await` gives and leaves.
pub open spec fn await_post(before: RuntimeState, after: RuntimeState, vars: Seq<String>, r: Result<(), StateError>) -> bool {
    &&& (r is Ok ==> exists|states: Seq<RuntimeState>|
        #![trigger await_trace(states, vars, vars.len())]
        await_trace(states, vars, vars.len()) && states[0] == before && states.last() == after)
    &&& (r matches Err(e) ==> exists|states: Seq<RuntimeState>, j: nat|
        #![trigger await_trace(states, vars, j)]
        j < vars.len() && await_trace(states, vars, j) && states[0] == before && await_one(
            states.last(),
            after,
            vars[j as int]@,
            Err::<(), StateError>(e),
        ))
}

impl RuntimeState {
    /// Put `value` in slot `slot`, where an operator writes its output: every
    /// name that refers to the slot sees it.
    pub fn store_slot(&mut self, slot: usize, value: TensorValue)
        requires
            old(self).wf(),
            slot < old(self).slots@.len(),
            value.wf(),
        ensures
            final(self).wf(),
            final(self).slots@ == old(self).slots@.update(slot as int, value),
            final(self).same_frame(&*old(self)),
            final(self).locals@ == old(self).locals@,
            final(self).cache == old(self).cache,
    {
        self.slots.set(slot, value);
    }
}

/// The recorded type and shape of `name`, or of the variable an indexed
/// name `base[...]` refers to.
pub open spec fn decl_shape_spec(s: RuntimeState, name: Seq<char>) -> Option<(DType, Seq<usize>)> {
    if s.var_dtypes@.contains_key(name) && s.var_shapes@.contains_key(name) {
        Some((s.var_dtypes@[name], s.var_shapes@[name]@))
    } else {
        match base_name(name) {
            Some(b) => if s.var_dtypes@.contains_key(b) && s.var_shapes@.contains_key(b) {
                Some((s.var_dtypes@[b], s.var_shapes@[b]@))
            } else {
                None
            },
            None => None,
        }
    }
}

impl RuntimeState {
    /// The recorded type and shape of `name` (see `decl_shape_spec`).
    pub fn lookup_decl_shape(&self, name: &str) -> (r: Option<(DType, Vec<usize>)>)
        ensures
            match decl_shape_spec(*self, name@) {
                Some((d, sh)) => r matches Some((rd, rs)) && rd == d && rs@ == sh,
                None => r is None,
            },
    {
        if let (Some(d), Some(s)) = (self.var_dtypes.get(name), self.var_shapes.get(name)) {
            return Some((*d, copy_usizes(s.as_slice())));
        }
        match split_once_char(name, '[') {
            Some((base, _)) => match (self.var_dtypes.get(base), self.var_shapes.get(base)) {
                (Some(d), Some(s)) => Some((*d, copy_usizes(s.as_slice()))),
                _ => None,
            },
            None => None,
        }
    }
}

/// A value made local under a name not handed in is what reading the name
/// gives next, and the read changes nothing.
pub proof fn law_local_write_then_read(
    s0: RuntimeState,
    s1: RuntimeState,
    s2: RuntimeState,
    name: Seq<char>,
    v: TensorView,
    r: Result<TensorValue, StateError>,
)
    requires
        s0.wf(),
        !s0.dynamic@.contains_key(name),
        set_local_post(s0, s1, name, v),
        get_tensor_post(s1, s2, name, r),
    ensures
        r matches Ok(t) && t@ == v,
        s2.unchanged(&s1),
{
    let n = s0.slots@.len();
    assert(s0.slots.len() == n);
    assert(slot_views(s1.slots@).len() == n + 1);
    assert(slot_views(s1.slots@)[n as int] == v);
    assert(s1.locals@[name] == n);
    assert(s1.slots@[n as int]@ == v);
}

/// A value handed in under a name is what reading the name gives next,
/// whatever local or persistent value the name has.
pub proof fn law_dynamic_write_then_read(
    s0: RuntimeState,
    s1: RuntimeState,
    s2: RuntimeState,
    name: Seq<char>,
    v: TensorView,
    r: Result<TensorValue, StateError>,
)
    requires
        s0.wf(),
        insert_dynamic_post(s0, s1, name, v),
        get_tensor_post(s1, s2, name, r),
    ensures
        r matches Ok(t) && t@ == v,
        s2.unchanged(&s1),
{
    let n = s0.slots@.len();
    assert(s0.slots.len() == n);
    assert(slot_views(s1.slots@).len() == n + 1);
    assert(slot_views(s1.slots@)[n as int] == v);
    assert(s1.dynamic@[name] == n);
    assert(s1.slots@[n as int]@ == v);
}

/// After a transfer, the destination (when not handed in) names the very
/// slot the source names: both read the same value.
pub proof fn law_transfer_shares_slot(
    s0: RuntimeState,
    mid: RuntimeState,
    s1: RuntimeState,
    src: Seq<char>,
    dst: Seq<char>,
    i: usize,
)
    requires
        s0.wf(),
        s0.dynamic@.contains_key(src) || s0.locals@.contains_key(src),
        !s0.dynamic@.contains_key(dst),
        get_shared_post(s0, mid, src, Ok::<usize, StateError>(i)),
        i < mid.slots@.len(),
        s1.slots == mid.slots,
        s1.locals@ == mid.locals@.insert(dst, i),
        s1.dynamic@ == mid.dynamic@,
        s1.cache == mid.cache,
    ensures
        s1.locals@[dst] == i,
        s1.visible(dst) == Some(s1.slots@[i as int]@),
        src != dst ==> s1.visible(src) == Some(s1.slots@[i as int]@),
{
}

/// Awaiting a name that has a value handed in makes that very slot its
/// local value: reading it, locally or as handed in, gives the same value.
pub proof fn law_await_shares_handed_in_slot(a: RuntimeState, b: RuntimeState, v: Seq<char>)
    requires
        a.wf(),
        a.dynamic@.contains_key(v),
        await_one(a, b, v, Ok::<(), StateError>(())),
    ensures
        b.locals@[v] == a.dynamic@[v],
        b.dynamic@ == a.dynamic@,
        b.slots == a.slots,
        b.visible(v) == a.visible(v),
{
}

/// Yielding a name hands in the value the yield gives, under that name.
pub proof fn law_yield_hands_in_value(a: RuntimeState, b: RuntimeState, v: Seq<char>, val: TensorView)
    requires
        a.wf(),
        yield_one(a, b, v, Ok::<TensorView, StateError>(val)),
    ensures
        b.dynamic@.contains_key(v),
        b.visible(v) == Some(val),
{
    let (mid, ri) = choose|mid: RuntimeState, ri: Result<usize, StateError>|
        #![trigger get_shared_post(a, mid, v, ri)]
        get_shared_post(a, mid, v, ri) && yield_step(mid, b, v, ri, Ok::<TensorView, StateError>(val));
}

/// One more declaration whose dimensions resolve adds it to the tables.
proof fn lemma_decl_tables_step(all: Seq<VarDecl>, i: int, sizes: Map<Seq<char>, usize>)
    requires
        0 <= i < all.len(),
        decl_tables(all.subrange(0, i), sizes) is Ok,
        shape_of(sizes, all[i].dims@) is Ok,
    ensures
        decl_tables(all.subrange(0, i + 1), sizes) == Ok::<
            (Map<Seq<char>, VarDecl>, Map<Seq<char>, Seq<usize>>, Map<Seq<char>, DType>),
            LoadError,
        >(
            (
                decl_tables(all.subrange(0, i), sizes)->Ok_0.0.insert(all[i].name@, all[i]),
                decl_tables(all.subrange(0, i), sizes)->Ok_0.1.insert(
                    all[i].name@,
                    shape_of(sizes, all[i].dims@)->Ok_0,
                ),
                decl_tables(all.subrange(0, i), sizes)->Ok_0.2.insert(all[i].name@, all[i].dtype),
            ),
        ),
{
    let pre = all.subrange(0, i + 1);
    assert(pre.drop_last() =~= all.subrange(0, i));
    assert(pre.last() == all[i]);
}

/// A declaration whose dimensions do not resolve makes every longer prefix
/// fail with the error of the first such declaration.
proof fn lemma_decl_tables_err(all: Seq<VarDecl>, i: int, sizes: Map<Seq<char>, usize>)
    requires
        0 <= i < all.len(),
        decl_tables(all.subrange(0, i), sizes) is Ok,
        shape_of(sizes, all[i].dims@) is Err,
    ensures
        decl_tables(all, sizes) == Err::<
            (Map<Seq<char>, VarDecl>, Map<Seq<char>, Seq<usize>>, Map<Seq<char>, DType>),
            LoadError,
        >(shape_of(sizes, all[i].dims@)->Err_0),
    decreases all.len(),
{
    if all.len() == i + 1 {
        assert(all.drop_last() =~= all.subrange(0, i));
    } else {
        assert(all.drop_last().subrange(0, i) =~= all.subrange(0, i));
        lemma_decl_tables_err(all.drop_last(), i, sizes);
    }
}

/// Two states with the same names handed in, the same locals, the same slot
/// values and the same persistent values show the same value for a name.
proof fn lemma_visible_same(a: RuntimeState, b: RuntimeState, name: Seq<char>)
    requires
        a.wf(),
        b.wf(),
        a.dynamic@ == b.dynamic@,
        a.locals@ == b.locals@,
        slot_views(a.slots@) == slot_views(b.slots@),
        a.cache.sv().persistent == b.cache.sv().persistent,
    ensures
        a.visible(name) == b.visible(name),
{
    if a.dynamic@.contains_key(name) {
        let i = a.dynamic@[name] as int;
        assert(slot_views(a.slots@).len() == a.slots@.len());
        assert(slot_views(b.slots@).len() == b.slots@.len());
        assert(slot_views(a.slots@)[i] == a.slots@[i]@);
        assert(slot_views(b.slots@)[i] == b.slots@[i]@);
    } else if a.locals@.contains_key(name) {
        let i = a.locals@[name] as int;
        assert(slot_views(a.slots@).len() == a.slots@.len());
        assert(slot_views(b.slots@).len() == b.slots@.len());
        assert(slot_views(a.slots@)[i] == a.slots@[i]@);
        assert(slot_views(b.slots@)[i] == b.slots@[i]@);
    } else {
        assert(a.cache.sv().persistent.contains_key(name) == a.cache.persistent@.contains_key(name));
        assert(b.cache.sv().persistent.contains_key(name) == b.cache.persistent@.contains_key(name));
        if a.cache.persistent@.contains_key(name) {
            assert(a.cache.sv().persistent[name] == a.cache.persistent@[name]@);
            assert(b.cache.sv().persistent[name] == b.cache.persistent@[name]@);
        }
    }
}

/// A value kept under `name` by a read is what the name shows next.
proof fn lemma_kept_visible(a: RuntimeState, b: RuntimeState, name: Seq<char>, d: VarDecl, v: TensorView)
    requires
        a.wf(),
        b.wf(),
        a.visible(name) is None,
        keeps(a, b, name, d, v),
    ensures
        b.visible(name) == Some(v),
{
    assert(!a.dynamic@.contains_key(name));
    assert(!a.locals@.contains_key(name));
    assert(slot_views(a.slots@).len() == a.slots@.len());
    assert(slot_views(b.slots@).len() == b.slots@.len());
    if d.kind == MemoryKind::Persistent {
        assert(b.cache.sv().persistent.contains_key(name));
        assert(b.cache.persistent@.contains_key(name));
        assert(b.cache.sv().persistent[name] == b.cache.persistent@[name]@);
    } else {
        let i = a.slots@.len() as int;
        assert(a.slots@.len() == a.slots.len());
        assert(b.locals@[name] == i);
        assert(slot_views(b.slots@)[i] == b.slots@[i]@);
    }
}

/// A name that shows a value is read as that value.
proof fn lemma_read_visible(b: RuntimeState, c: RuntimeState, name: Seq<char>, v: TensorView, r: Result<TensorValue, StateError>)
    requires
        b.visible(name) == Some(v),
        get_tensor_post(b, c, name, r),
    ensures
        r matches Ok(t) && t@ == v,
{
}

/// Reading a name twice, with nothing else in between, gives the same value
/// both times: a value loaded or made by the first read is kept (as a local,
/// or in the cache store) and found by the second, or made again the same
/// way.
#[verifier::rlimit(40)]
pub proof fn law_read_twice_same(a: RuntimeState, b: RuntimeState, c: RuntimeState, name: Seq<char>, r1: Result<
    TensorValue,
    StateError,
>, r2: Result<TensorValue, StateError>)
    requires
        a.wf(),
        b.wf(),
        get_tensor_post(a, b, name, r1),
        r1 is Ok,
        get_tensor_post(b, c, name, r2),
    ensures
        r2 matches Ok(t2) && t2@ == r1->Ok_0@,
{
    let v1 = r1->Ok_0@;
    if a.visible(name) is Some {
        lemma_visible_same(a, b, name);
        lemma_read_visible(b, c, name, v1, r2);
    } else {
        let d = decl_for_spec(a.vars@, name)->Some_0;
        if a.model.vars@.contains_key(name) && a.model.vars@[name].has_data {
            lemma_kept_visible(a, b, name, d, v1);
            lemma_read_visible(b, c, name, v1, r2);
        } else if a.model.metadata_tensor_spec(name) is Ok && a.model.metadata_tensor_spec(name)->Ok_0 is Some {
            lemma_kept_visible(a, b, name, d, v1);
            lemma_read_visible(b, c, name, v1, r2);
        } else if b.visible(name) is Some {
            let vb = b.visible(name)->Some_0;
            assert(!a.dynamic@.contains_key(name));
            assert(b.dynamic@ == a.dynamic@);
            assert(slot_views(a.slots@).len() == a.slots@.len());
            assert(slot_views(b.slots@).len() == b.slots@.len());
            if d.kind == MemoryKind::Persistent {
                assert(b.locals@ == a.locals@);
                assert(b.cache.sv().persistent.contains_key(name) == b.cache.persistent@.contains_key(name));
                assert(a.cache.sv().persistent.contains_key(name) == a.cache.persistent@.contains_key(name));
                assert(b.cache.sv().persistent.contains_key(name));
                assert(b.cache.sv().persistent[name] == b.cache.persistent@[name]@);
                assert(vb == v1);
            } else {
                assert(b.cache.sv() == a.cache.sv());
                assert(b.cache.sv().persistent.contains_key(name) == b.cache.persistent@.contains_key(name));
                assert(a.cache.sv().persistent.contains_key(name) == a.cache.persistent@.contains_key(name));
                assert(b.locals@.contains_key(name));
                let i = a.slots@.len() as int;
                assert(a.slots@.len() == a.slots.len());
                assert(b.locals@[name] == i);
                assert(slot_views(b.slots@)[i] == b.slots@[i]@);
                assert(vb == v1);
            }
            lemma_read_visible(b, c, name, v1, r2);
        } else {
            assert(decl_for_spec(b.vars@, name) == Some(d));
            if d.kind == MemoryKind::Persistent {
                assert(b.cache.sv().persistent.contains_key(d.name@));
            }
        }
    }
}

} // verus!
