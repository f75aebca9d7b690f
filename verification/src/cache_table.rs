//! Cache tables: a map from index tuples to entry tensors, with per-index
//! sizes that grow as the table is addressed.
use vstd::prelude::*;
use crate::cache::{init_cache_table_sizes, fixed_size_for, fixed_size_spec, range_vec, resolve_slice_bounds, slice_bounds_spec, CacheError, ResolvedCacheIndexExpr, TableIndexSelection};
use crate::dtype::{bits_of, packed, storage_units, DType};
use crate::graph::{CacheAccess, ScalarValue, VarDecl};
use crate::tensor::{copy_usizes, elem_max, numel, numel_exec, row_major_strides, shape_fits, shape_fits_exec, stride_of, view_wf, TensorValue, TensorView};

verus! {

/// A cache table: its declaration, the names of its indices, the fixed size
/// of each index (if any), the current size of each index, and its entries.
#[derive(Clone, Debug)]
pub struct CacheTable {
    pub decl: VarDecl,
    pub table_indices: Vec<String>,
    pub fixed_sizes: Vec<Option<usize>>,
    pub sizes: Vec<usize>,
    pub entries: Vec<(Vec<usize>, TensorValue)>,
}

/// No two entries share an index tuple.
pub open spec fn keys_unique(e: Seq<(Vec<usize>, TensorValue)>) -> bool {
    forall|i: int, j: int|
        0 <= i < e.len() && 0 <= j < e.len() && i != j ==> (#[trigger] e[i]).0@ != (#[trigger] e[j]).0@
}

/// Some entry has index tuple `k`.
pub open spec fn has_key(e: Seq<(Vec<usize>, TensorValue)>, k: Seq<usize>) -> bool {
    exists|i: int| 0 <= i < e.len() && (#[trigger] e[i]).0@ == k
}

/// The entries as a map from index tuple to tensor.
pub open spec fn entry_map(e: Seq<(Vec<usize>, TensorValue)>) -> Map<Seq<usize>, TensorView> {
    Map::new(
        |k: Seq<usize>| has_key(e, k),
        |k: Seq<usize>| e[choose|i: int| 0 <= i < e.len() && (#[trigger] e[i]).0@ == k].1@,
    )
}

proof fn lemma_entry_at(e: Seq<(Vec<usize>, TensorValue)>, i: int)
    requires
        keys_unique(e),
        0 <= i < e.len(),
    ensures
        entry_map(e).contains_key(e[i].0@),
        entry_map(e)[e[i].0@] == e[i].1@,
{
    let k = e[i].0@;
    assert(has_key(e, k));
    let j = choose|j: int| 0 <= j < e.len() && (#[trigger] e[j]).0@ == k;
    if j != i {
        assert(e[i].0@ != e[j].0@);
    }
}

proof fn lemma_entry_push(e: Seq<(Vec<usize>, TensorValue)>, kv: (Vec<usize>, TensorValue))
    requires
        keys_unique(e),
        !has_key(e, kv.0@),
    ensures
        keys_unique(e.push(kv)),
        entry_map(e.push(kv)) == entry_map(e).insert(kv.0@, kv.1@),
{
    let f = e.push(kv);
    assert forall|i: int, j: int|
        0 <= i < f.len() && 0 <= j < f.len() && i != j implies (#[trigger] f[i]).0@ != (
    #[trigger] f[j]).0@ by {
        if i < e.len() && j < e.len() {
            assert(e[i].0@ != e[j].0@);
        } else if i < e.len() {
            assert(f[i] == e[i]);
        } else {
            assert(f[j] == e[j]);
        }
    }
    assert forall|k: Seq<usize>| #[trigger] has_key(f, k) == (has_key(e, k) || k == kv.0@) by {
        if has_key(e, k) {
            let i = choose|i: int| 0 <= i < e.len() && (#[trigger] e[i]).0@ == k;
            assert(f[i] == e[i]);
        }
        if k == kv.0@ {
            assert(f[e.len() as int] == kv);
        }
        if has_key(f, k) && !has_key(e, k) {
            let i = choose|i: int| 0 <= i < f.len() && (#[trigger] f[i]).0@ == k;
            if i < e.len() {
                assert(f[i] == e[i]);
            }
        }
    }
    assert forall|k: Seq<usize>| #[trigger] entry_map(f).contains_key(k) implies entry_map(f)[k]
        == entry_map(e).insert(kv.0@, kv.1@)[k] by {
        let i = choose|i: int| 0 <= i < f.len() && (#[trigger] f[i]).0@ == k;
        lemma_entry_at(f, i);
        if i < e.len() {
            assert(f[i] == e[i]);
            lemma_entry_at(e, i);
        } else {
            assert(f[i] == kv);
        }
    }
    assert(entry_map(f) =~= entry_map(e).insert(kv.0@, kv.1@));
}

proof fn lemma_entry_update(e: Seq<(Vec<usize>, TensorValue)>, i: int, kv: (Vec<usize>, TensorValue))
    requires
        keys_unique(e),
        0 <= i < e.len(),
        e[i].0@ == kv.0@,
    ensures
        keys_unique(e.update(i, kv)),
        entry_map(e.update(i, kv)) == entry_map(e).insert(kv.0@, kv.1@),
{
    let f = e.update(i, kv);
    assert forall|a: int, b: int|
        0 <= a < f.len() && 0 <= b < f.len() && a != b implies (#[trigger] f[a]).0@ != (
    #[trigger] f[b]).0@ by {
        assert(e[a].0@ != e[b].0@);
    }
    assert forall|k: Seq<usize>| #[trigger] has_key(f, k) == has_key(e, k) by {
        if has_key(e, k) {
            let j = choose|j: int| 0 <= j < e.len() && (#[trigger] e[j]).0@ == k;
            assert(f[j].0@ == k);
        }
        if has_key(f, k) {
            let j = choose|j: int| 0 <= j < f.len() && (#[trigger] f[j]).0@ == k;
            assert(e[j].0@ == k);
        }
    }
    assert forall|k: Seq<usize>| #[trigger] entry_map(f).contains_key(k) implies entry_map(f)[k]
        == entry_map(e).insert(kv.0@, kv.1@)[k] by {
        let j = choose|j: int| 0 <= j < f.len() && (#[trigger] f[j]).0@ == k;
        lemma_entry_at(f, j);
        if j != i {
            lemma_entry_at(e, j);
        }
    }
    assert(entry_map(f) =~= entry_map(e).insert(kv.0@, kv.1@));
}

/// Whether two index tuples are equal.
pub fn same_key(a: &[usize], b: &[usize]) -> (r: bool)
    ensures
        r == (a@ == b@),
{
    if a.len() != b.len() {
        return false;
    }
    let mut i: usize = 0;
    while i < a.len()
        invariant
            i <= a@.len() == b@.len(),
            forall|j: int| 0 <= j < i ==> a@[j] == b@[j],
        decreases a@.len() - i,
    {
        if a[i] != b[i] {
            return false;
        }
        i = i + 1;
    }
    assert(a@ =~= b@);
    true
}

/// Position of the entry with index tuple `key`.
pub fn find_entry(entries: &Vec<(Vec<usize>, TensorValue)>, key: &[usize]) -> (r: Option<usize>)
    ensures
        match r {
            Some(i) => i < entries@.len() && entries@[i as int].0@ == key@,
            None => !has_key(entries@, key@),
        },
{
    let mut i: usize = 0;
    while i < entries.len()
        invariant
            i <= entries@.len(),
            forall|j: int| 0 <= j < i ==> (#[trigger] entries@[j]).0@ != key@,
        decreases entries@.len() - i,
    {
        if same_key(entries[i].0.as_slice(), key) {
            return Some(i);
        }
        i = i + 1;
    }
    None
}

/// Set the entry at index tuple `key`, replacing one already there.
pub fn put_entry(entries: &mut Vec<(Vec<usize>, TensorValue)>, key: Vec<usize>, value: TensorValue)
    requires
        keys_unique(old(entries)@),
    ensures
        keys_unique(final(entries)@),
        entry_map(final(entries)@) == entry_map(old(entries)@).insert(key@, value@),
        forall|i: int|
            0 <= i < final(entries)@.len() ==> (#[trigger] final(entries)@[i] == (key, value)
                || exists|j: int| 0 <= j < old(entries)@.len() && old(entries)@[j] == final(entries)@[i]),
{
    let ghost e = entries@;
    let ghost kv = (key, value);
    match find_entry(entries, key.as_slice()) {
        Some(i) => {
            proof {
                lemma_entry_update(e, i as int, kv);
            }
            entries.set(i, (key, value));
            assert(entries@ == e.update(i as int, kv));
            assert forall|a: int| 0 <= a < entries@.len() implies (#[trigger] entries@[a] == kv
                || exists|j: int| 0 <= j < e.len() && e[j] == entries@[a]) by {
                if a != i {
                    assert(e[a] == entries@[a]);
                }
            }
        },
        None => {
            proof {
                lemma_entry_push(e, kv);
            }
            entries.push((key, value));
            assert(entries@ == e.push(kv));
            assert forall|a: int| 0 <= a < entries@.len() implies (#[trigger] entries@[a] == kv
                || exists|j: int| 0 <= j < e.len() && e[j] == entries@[a]) by {
                if a < e.len() {
                    assert(e[a] == entries@[a]);
                }
            }
        },
    }
}

impl CacheTable {
    /// The table's invariant: one size and one fixed size per index, no two
    /// entries under one index tuple, every key as long as the index list,
    /// and every entry a well-formed tensor.
    pub open spec fn wf(&self) -> bool {
        &&& self.fixed_sizes@.len() == self.table_indices@.len()
        &&& self.sizes@.len() == self.table_indices@.len()
        &&& keys_unique(self.entries@)
        &&& forall|i: int|
            0 <= i < self.entries@.len() ==> (#[trigger] self.entries@[i]).0@.len()
                == self.table_indices@.len() && view_wf(self.entries@[i].1@)
    }

    /// The entries by index tuple.
    pub open spec fn entries_view(&self) -> Map<Seq<usize>, TensorView> {
        entry_map(self.entries@)
    }
}

/// An empty table for a declaration, with each index at its fixed size or zero.
pub fn build_cache_table(decl: &VarDecl) -> (r: Result<CacheTable, CacheError>)
    ensures
        r matches Ok(t) && t.wf() && t.table_indices@ == decl.table_indices@ && t.entries@.len() == 0
            && t.decl.name == decl.name && t.decl.dtype == decl.dtype && t.decl.init == decl.init
            && forall|i: int|
            0 <= i < t.table_indices@.len() ==> t.fixed_sizes@[i] == fixed_size_spec(
                decl.fixed@,
                #[trigger] t.table_indices@[i]@,
            ) && t.sizes@[i] == match t.fixed_sizes@[i] {
                Some(v) => v,
                None => 0usize,
            },
{
    let mut names: Vec<String> = Vec::new();
    let mut i: usize = 0;
    while i < decl.table_indices.len()
        invariant
            i <= decl.table_indices@.len(),
            names@ == decl.table_indices@.subrange(0, i as int),
        decreases decl.table_indices@.len() - i,
    {
        names.push(decl.table_indices[i].clone());
        i = i + 1;
    }
    assert(names@ =~= decl.table_indices@);
    let (fixed_sizes, sizes) = init_cache_table_sizes(decl, names.as_slice())?;
    Ok(CacheTable { decl: decl.copy_decl(), table_indices: names, fixed_sizes, sizes, entries: Vec::new() })
}

/// The table `b` equals `a` but for the sizes of its indices.
pub open spec fn same_but_sizes(a: CacheTable, b: CacheTable) -> bool {
    &&& a.decl == b.decl
    &&& a.table_indices == b.table_indices
    &&& a.fixed_sizes == b.fixed_sizes
    &&& a.entries == b.entries
}

/// The size an index takes when position `required - 1` is addressed: it
/// grows to `required`, unless that passes the index's fixed size.
pub open spec fn ensure_size_spec(fixed: Option<usize>, size: usize, required: usize) -> Result<
    usize,
    CacheError,
> {
    if fixed matches Some(max) && required > max {
        Err(CacheError::ExceedsFixedSize)
    } else if size < required {
        Ok(required)
    } else {
        Ok(size)
    }
}

/// The positions `s..e`.
pub open spec fn range_seq(s: usize, e: usize) -> Seq<usize> {
    Seq::new((e - s) as nat, |i: int| (s + i) as usize)
}

/// The element at `i`, if there is one.
pub open spec fn opt_get<T>(s: Seq<T>, i: int) -> Option<T> {
    if 0 <= i < s.len() {
        Some(s[i])
    } else {
        None
    }
}

/// What one table index selects, whether it is a single position, and the
/// index's size afterwards: a missing index selects the whole current range.
pub open spec fn dim_selection_spec(
    size: usize,
    fixed: Option<usize>,
    expr: Option<ResolvedCacheIndexExpr>,
) -> Result<(Seq<usize>, bool, usize), CacheError> {
    match expr {
        Some(ResolvedCacheIndexExpr::Single(index)) => match ensure_size_spec(
            fixed,
            size,
            (index + 1) as usize,
        ) {
            Err(e) => Err(e),
            Ok(ns) => Ok((seq![index], true, ns)),
        },
        _ => {
            let (start, end): (Option<i64>, Option<i64>) = match expr {
                Some(ResolvedCacheIndexExpr::Slice { start, end }) => (start, end),
                _ => (None, None),
            };
            match slice_bounds_spec(size, start, end, true) {
                Err(e) => Err(e),
                Ok((s, e)) => match ensure_size_spec(fixed, size, e) {
                    Err(err) => Err(err),
                    Ok(ns) => Ok((range_seq(s, e), false, ns)),
                },
            }
        },
    }
}

/// Sizes after resolving the first `k` table indices, and the selections
/// (or the first error).
pub open spec fn resolve_dims_spec(
    sizes: Seq<usize>,
    fixed: Seq<Option<usize>>,
    resolved: Seq<ResolvedCacheIndexExpr>,
    k: nat,
) -> (Seq<usize>, Result<Seq<(Seq<usize>, bool)>, CacheError>)
    decreases k,
{
    if k == 0 {
        (sizes, Ok(Seq::empty()))
    } else {
        let (sz, r) = resolve_dims_spec(sizes, fixed, resolved, (k - 1) as nat);
        match r {
            Err(e) => (sz, Err(e)),
            Ok(sels) => match dim_selection_spec(
                sz[k - 1],
                fixed[k - 1],
                opt_get(resolved, k - 1),
            ) {
                Err(e) => (sz, Err(e)),
                Ok((idx, scalar, ns)) => (sz.update(k - 1, ns), Ok(sels.push((idx, scalar)))),
            },
        }
    }
}

proof fn lemma_dims_err(
    sizes: Seq<usize>,
    fixed: Seq<Option<usize>>,
    resolved: Seq<ResolvedCacheIndexExpr>,
    i: nat,
    n: nat,
)
    requires
        i <= n,
        resolve_dims_spec(sizes, fixed, resolved, i).1 is Err,
    ensures
        resolve_dims_spec(sizes, fixed, resolved, n) == resolve_dims_spec(sizes, fixed, resolved, i),
    decreases n - i,
{
    if i < n {
        lemma_dims_err(sizes, fixed, resolved, i, (n - 1) as nat);
    }
}

pub proof fn lemma_dims_len(
    sizes: Seq<usize>,
    fixed: Seq<Option<usize>>,
    resolved: Seq<ResolvedCacheIndexExpr>,
    k: nat,
)
    requires
        k <= sizes.len(),
    ensures
        resolve_dims_spec(sizes, fixed, resolved, k).0.len() == sizes.len(),
        resolve_dims_spec(sizes, fixed, resolved, k).1 matches Ok(sels) ==> sels.len() == k,
    decreases k,
{
    if k > 0 {
        lemma_dims_len(sizes, fixed, resolved, (k - 1) as nat);
    }
}

/// A selection as positions and scalar flag.
pub open spec fn sel_view(s: TableIndexSelection) -> (Seq<usize>, bool) {
    (s.indices@, s.is_scalar)
}

/// Selections as positions and scalar flags.
pub open spec fn sel_views(s: Seq<TableIndexSelection>) -> Seq<(Seq<usize>, bool)> {
    s.map_values(|x: TableIndexSelection| sel_view(x))
}

/// Grow index `dim` so that positions below `required` exist.
fn ensure_table_size(table: &mut CacheTable, dim: usize, required: usize) -> (r: Result<(), CacheError>)
    requires
        old(table).wf(),
        dim < old(table).sizes@.len(),
    ensures
        same_but_sizes(*old(table), *final(table)),
        match ensure_size_spec(old(table).fixed_sizes@[dim as int], old(table).sizes@[dim as int], required) {
            Ok(ns) => r is Ok && final(table).sizes@ == old(table).sizes@.update(dim as int, ns),
            Err(e) => r == Err::<(), CacheError>(e) && final(table).sizes@ == old(table).sizes@,
        },
{
    if let Some(max) = table.fixed_sizes[dim] {
        if required > max {
            return Err(CacheError::ExceedsFixedSize);
        }
    }
    if table.sizes[dim] < required {
        table.sizes.set(dim, required);
    }
    Ok(())
}

/// Select the slice `start..end` of index `dim`, growing it as needed.
fn resolve_table_slice(table: &mut CacheTable, dim: usize, start: Option<i64>, end: Option<i64>) -> (r:
    Result<TableIndexSelection, CacheError>)
    requires
        old(table).wf(),
        dim < old(table).sizes@.len(),
    ensures
        same_but_sizes(*old(table), *final(table)),
        match slice_bounds_spec(old(table).sizes@[dim as int], start, end, true) {
            Err(e) => r == Err::<TableIndexSelection, CacheError>(e) && final(table).sizes@ == old(
                table,
            ).sizes@,
            Ok((s, e)) => match ensure_size_spec(
                old(table).fixed_sizes@[dim as int],
                old(table).sizes@[dim as int],
                e,
            ) {
                Ok(ns) => r matches Ok(sel) && sel_view(sel) == (range_seq(s, e), false)
                    && final(table).sizes@ == old(table).sizes@.update(dim as int, ns),
                Err(err) => r == Err::<TableIndexSelection, CacheError>(err) && final(table).sizes@
                    == old(table).sizes@,
            },
        },
{
    let size = table.sizes[dim];
    let (s, e) = resolve_slice_bounds(size, start, end, true)?;
    ensure_table_size(table, dim, e)?;
    let indices = range_vec(s, e);
    Ok(TableIndexSelection { indices, is_scalar: false })
}

#[verifier::loop_isolation(false)]
/// Resolve one selection per table index from the access's resolved
/// indices: a single index selects one position, a slice or a missing index
/// a range; each index grows to cover what it selects, within its fixed size.
pub fn resolve_table_indices_from_resolved(
    table: &mut CacheTable,
    access: &CacheAccess,
    resolved: &[ResolvedCacheIndexExpr],
) -> (r: Result<Vec<TableIndexSelection>, CacheError>)
    requires
        old(table).wf(),
        forall|i: int|
            0 <= i < resolved@.len() ==> (#[trigger] resolved@[i] matches ResolvedCacheIndexExpr::Single(
                v,
            ) ==> v < usize::MAX),
    ensures
        final(table).wf(),
        same_but_sizes(*old(table), *final(table)),
        !access.bracketed ==> r == Err::<Vec<TableIndexSelection>, CacheError>(
            CacheError::IndicesRequired,
        ) && final(table).sizes@ == old(table).sizes@,
        access.bracketed && resolved@.len() > old(table).table_indices@.len() ==> r == Err::<
            Vec<TableIndexSelection>,
            CacheError,
        >(CacheError::TooManyIndices) && final(table).sizes@ == old(table).sizes@,
        access.bracketed && resolved@.len() <= old(table).table_indices@.len() ==> {
            let (sz, res) = resolve_dims_spec(
                old(table).sizes@,
                old(table).fixed_sizes@,
                resolved@,
                old(table).table_indices@.len(),
            );
            &&& final(table).sizes@ == sz
            &&& match res {
                Ok(sels) => (r matches Ok(v) && v@.len() == sels.len() && forall|d: int|
                    0 <= d < sels.len() ==> sel_view(#[trigger] v@[d]) == sels[d]),
                Err(e) => r == Err::<Vec<TableIndexSelection>, CacheError>(e),
            }
        },
{
    if !access.bracketed {
        return Err(CacheError::IndicesRequired);
    }
    let rank = table.table_indices.len();
    if resolved.len() > 0 && resolved.len() > rank {
        return Err(CacheError::TooManyIndices);
    }
    let ghost sizes0 = table.sizes@;
    let ghost fixed0 = table.fixed_sizes@;
    let ghost t0 = *table;
    let mut selections: Vec<TableIndexSelection> = Vec::new();
    let mut dim: usize = 0;
    while dim < rank
        invariant
            dim <= rank == table.table_indices@.len(),
            table.wf(),
            same_but_sizes(t0, *table),
            fixed0 == table.fixed_sizes@,
            forall|i: int|
                0 <= i < resolved@.len() ==> (#[trigger] resolved@[i] matches ResolvedCacheIndexExpr::Single(
                    v,
                ) ==> v < usize::MAX),
            resolve_dims_spec(sizes0, fixed0, resolved@, dim as nat).0 == table.sizes@,
            resolve_dims_spec(sizes0, fixed0, resolved@, dim as nat).1 matches Ok(sels) && sels.len()
                == selections@.len() && forall|d: int|
                0 <= d < sels.len() ==> sel_view(#[trigger] selections@[d]) == sels[d],
        decreases rank - dim,
    {
        proof {
            lemma_dims_len(sizes0, fixed0, resolved@, dim as nat);
        }
        let ghost before = table.sizes@;
        let ghost prev = resolve_dims_spec(sizes0, fixed0, resolved@, dim as nat);
        let step = if dim < resolved.len() {
            match resolved[dim] {
                ResolvedCacheIndexExpr::Single(index) => {
                    match ensure_table_size(table, dim, index + 1) {
                        Ok(()) => {
                            let mut v: Vec<usize> = Vec::new();
                            v.push(index);
                            Ok(TableIndexSelection { indices: v, is_scalar: true })
                        },
                        Err(e) => Err(e),
                    }
                },
                ResolvedCacheIndexExpr::Slice { start, end } => resolve_table_slice(
                    table,
                    dim,
                    start,
                    end,
                ),
            }
        } else {
            resolve_table_slice(table, dim, None, None)
        };
        match step {
            Ok(sel) => {
                let ghost sel_before = selections@;
                proof {
                    assert(opt_get(resolved@, dim as int) == if dim < resolved@.len() {
                        Some(resolved@[dim as int])
                    } else {
                        None::<ResolvedCacheIndexExpr>
                    });
                    if dim < resolved@.len() && resolved@[dim as int] is Single {
                        assert(sel.indices@ =~= seq![resolved@[dim as int]->Single_0]);
                    }
                }
                selections.push(sel);
                proof {
                    let ghost cur = resolve_dims_spec(sizes0, fixed0, resolved@, (dim + 1) as nat);
                    assert(cur.1 matches Ok(sels) && sels.len() == selections@.len());
                    assert forall|d: int| 0 <= d < selections@.len() implies sel_view(
                        #[trigger] selections@[d],
                    ) == cur.1->Ok_0[d] by {
                        if d < dim {
                            assert(selections@[d] == sel_before[d]);
                        }
                    }
                }
            },
            Err(e) => {
                proof {
                    lemma_dims_err(sizes0, fixed0, resolved@, (dim + 1) as nat, rank as nat);
                }
                return Err(e);
            },
        }
        dim = dim + 1;
    }
    Ok(selections)
}

/// Whether every resolved index is a single position.
pub open spec fn all_single(resolved: Seq<ResolvedCacheIndexExpr>) -> bool {
    forall|i: int| 0 <= i < resolved.len() ==> (#[trigger] resolved[i]) is Single
}

#[verifier::loop_isolation(false)]
/// The leading index tuple of a reset: every index must be a single position.
pub fn resolve_table_prefix_indices_from_resolved(
    access: &CacheAccess,
    resolved: &[ResolvedCacheIndexExpr],
) -> (r: Result<Vec<usize>, CacheError>)
    ensures
        !access.bracketed ==> r == Err::<Vec<usize>, CacheError>(CacheError::IndicesRequired),
        access.bracketed && !all_single(resolved@) ==> r == Err::<Vec<usize>, CacheError>(
            CacheError::ResetNeedsScalarIndices,
        ),
        access.bracketed && all_single(resolved@) ==> (r matches Ok(v) && v@ == Seq::new(
            resolved@.len(),
            |i: int| resolved@[i]->Single_0,
        )),
{
    if !access.bracketed {
        return Err(CacheError::IndicesRequired);
    }
    let mut prefixes: Vec<usize> = Vec::new();
    let mut i: usize = 0;
    while i < resolved.len()
        invariant
            i <= resolved@.len(),
            forall|j: int| 0 <= j < i ==> (#[trigger] resolved@[j]) is Single,
            prefixes@ == Seq::new(i as nat, |j: int| resolved@[j]->Single_0),
        decreases resolved@.len() - i,
    {
        match resolved[i] {
            ResolvedCacheIndexExpr::Single(v) => prefixes.push(v),
            ResolvedCacheIndexExpr::Slice { .. } => return Err(CacheError::ResetNeedsScalarIndices),
        }
        i = i + 1;
        assert(prefixes@ =~= Seq::new(i as nat, |j: int| resolved@[j]->Single_0));
    }
    Ok(prefixes)
}

/// Set every index back to its fixed size, or zero.
pub fn reset_cache_table_sizes(table: &mut CacheTable, decl: &VarDecl) -> (r: Result<(), CacheError>)
    requires
        old(table).wf(),
    ensures
        r is Ok,
        final(table).wf(),
        final(table).decl == old(table).decl,
        final(table).table_indices == old(table).table_indices,
        final(table).entries == old(table).entries,
        forall|i: int|
            0 <= i < final(table).table_indices@.len() ==> final(table).fixed_sizes@[i]
                == fixed_size_spec(decl.fixed@, #[trigger] final(table).table_indices@[i]@)
                && final(table).sizes@[i] == match final(table).fixed_sizes@[i] {
                Some(v) => v,
                None => 0usize,
            },
{
    let (fixed_sizes, sizes) = init_cache_table_sizes(decl, table.table_indices.as_slice())?;
    table.fixed_sizes = fixed_sizes;
    table.sizes = sizes;
    Ok(())
}

/// Largest position `+ 1` (held at `usize::MAX`) along index `d` among the
/// first `n` entries, or zero.
pub open spec fn key_extent(e: Seq<(Vec<usize>, TensorValue)>, d: int, n: nat) -> usize
    decreases n,
{
    if n == 0 {
        0
    } else {
        let prev = key_extent(e, d, (n - 1) as nat);
        let here = crate::cache::sat_add(e[n - 1].0@[d], 1);
        if prev < here {
            here
        } else {
            prev
        }
    }
}

/// Recompute each index's size from the entries that remain: one past the
/// largest position in use, or the index's fixed size.
pub fn recompute_cache_table_sizes(table: &mut CacheTable, decl: &VarDecl) -> (r: Result<(), CacheError>)
    requires
        old(table).wf(),
    ensures
        r is Ok,
        final(table).wf(),
        same_but_sizes(*old(table), *final(table)),
        forall|d: int|
            0 <= d < final(table).sizes@.len() ==> #[trigger] final(table).sizes@[d] == match fixed_size_spec(
                decl.fixed@,
                old(table).table_indices@[d]@,
            ) {
                Some(v) => v,
                None => key_extent(old(table).entries@, d, old(table).entries@.len()),
            },
{
    let rank = table.table_indices.len();
    let mut sizes: Vec<usize> = Vec::new();
    let mut d: usize = 0;
    while d < rank
        invariant
            d <= rank == table.table_indices@.len(),
            table.wf(),
            sizes@.len() == d,
            forall|k: int|
                0 <= k < d ==> #[trigger] sizes@[k] == match fixed_size_spec(
                    decl.fixed@,
                    table.table_indices@[k]@,
                ) {
                    Some(v) => v,
                    None => key_extent(table.entries@, k, table.entries@.len()),
                },
        decreases rank - d,
    {
        let mut ext: usize = 0;
        let mut n: usize = 0;
        while n < table.entries.len()
            invariant
                n <= table.entries@.len(),
                d < rank == table.table_indices@.len(),
                table.wf(),
                ext == key_extent(table.entries@, d as int, n as nat),
            decreases table.entries@.len() - n,
        {
            let here = table.entries[n].0[d].saturating_add(1);
            if ext < here {
                ext = here;
            }
            n = n + 1;
        }
        let v = match fixed_size_for(decl, table.table_indices[d].as_str()) {
            Some(f) => f,
            None => ext,
        };
        sizes.push(v);
        d = d + 1;
    }
    table.sizes = sizes;
    Ok(())
}

/// Number of positions each selection picks.
pub open spec fn selection_counts(sels: Seq<(Seq<usize>, bool)>) -> Seq<usize> {
    Seq::new(sels.len(), |d: int| sels[d].0.len() as usize)
}

/// The index tuple at row-major position `t` of the product of the
/// selections (the first selection varies slowest).
pub open spec fn product_key(sels: Seq<(Seq<usize>, bool)>, t: int) -> Seq<usize> {
    let c = selection_counts(sels);
    Seq::new(
        sels.len(),
        |d: int| sels[d].0[(t / (stride_of(c, d) as int)) % (c[d] as int)],
    )
}

/// The data of the entries at the first `n` index tuples of the product,
/// one after the other.
pub open spec fn concat_entries(
    m: Map<Seq<usize>, TensorView>,
    sels: Seq<(Seq<usize>, bool)>,
    n: nat,
) -> Seq<u64>
    decreases n,
{
    if n == 0 {
        Seq::empty()
    } else {
        concat_entries(m, sels, (n - 1) as nat) + m[product_key(sels, n - 1)].data
    }
}

/// Sizes of the selections that are not single positions.
pub open spec fn nonscalar_counts(sels: Seq<(Seq<usize>, bool)>) -> Seq<usize>
    decreases sels.len(),
{
    if sels.len() == 0 {
        Seq::empty()
    } else {
        nonscalar_counts(sels.drop_last()) + if sels.last().1 {
            Seq::empty()
        } else {
            seq![sels.last().0.len() as usize]
        }
    }
}

/// An entry of type `e` can be read through a table of type `t`: same
/// element width, not packed, and a boolean table reads only booleans.
pub open spec fn entry_compatible(e: DType, t: DType) -> bool {
    &&& !packed(e)
    &&& bits_of(e) == bits_of(t)
    &&& (t == DType::Bool ==> e == DType::Bool)
}

/// The entry a missing index tuple reads as: the initializer, or zeros.
pub open spec fn default_entry(dtype: DType, entry_shape: Seq<usize>, init: Option<ScalarValue>) -> Result<
    TensorView,
    CacheError,
> {
    match init {
        Some(v) => match v.fill_spec(dtype) {
            Ok(_) => Ok(
                TensorView {
                    dtype,
                    shape: entry_shape,
                    data: Seq::new(numel(entry_shape), |i: int| v.bits),
                },
            ),
            Err(_) => Err(CacheError::InitFailed),
        },
        None => Ok(
            TensorView {
                dtype,
                shape: entry_shape,
                data: Seq::new(storage_units(dtype, numel(entry_shape)), |i: int| 0u64),
            },
        ),
    }
}

/// The checks made on the first `n` index tuples of the product: an entry
/// present must be compatible and of the entry length; a missing one needs
/// a default.
pub open spec fn read_checks(
    m: Map<Seq<usize>, TensorView>,
    sels: Seq<(Seq<usize>, bool)>,
    dtype: DType,
    entry_shape: Seq<usize>,
    init: Option<ScalarValue>,
    n: nat,
) -> Result<(), CacheError>
    decreases n,
{
    if n == 0 {
        Ok(())
    } else {
        match read_checks(m, sels, dtype, entry_shape, init, (n - 1) as nat) {
            Err(e) => Err(e),
            Ok(_) => {
                let k = product_key(sels, n - 1);
                if m.contains_key(k) {
                    if !entry_compatible(m[k].dtype, dtype) {
                        Err(CacheError::EntryDtypeMismatch)
                    } else if m[k].data.len() != numel(entry_shape) {
                        Err(CacheError::EntryLengthMismatch)
                    } else {
                        Ok(())
                    }
                } else {
                    match default_entry(dtype, entry_shape, init) {
                        Err(e) => Err(e),
                        Ok(_) => Ok(()),
                    }
                }
            },
        }
    }
}

/// The entries after the first `n` index tuples of the product were read:
/// each missing one now holds `dflt`.
pub open spec fn with_defaults(
    m: Map<Seq<usize>, TensorView>,
    sels: Seq<(Seq<usize>, bool)>,
    dflt: TensorView,
    n: nat,
) -> Map<Seq<usize>, TensorView>
    decreases n,
{
    if n == 0 {
        m
    } else {
        let m1 = with_defaults(m, sels, dflt, (n - 1) as nat);
        let k = product_key(sels, n - 1);
        if m1.contains_key(k) {
            m1
        } else {
            m1.insert(k, dflt)
        }
    }
}

/// Result of reading a selection of a table, and the entries afterwards.
pub open spec fn read_selection_spec(
    m: Map<Seq<usize>, TensorView>,
    sels: Seq<(Seq<usize>, bool)>,
    dtype: DType,
    entry_shape: Seq<usize>,
    init: Option<ScalarValue>,
) -> Result<(TensorView, Map<Seq<usize>, TensorView>), CacheError> {
    let c = selection_counts(sels);
    let total = numel(c);
    let out_shape = nonscalar_counts(sels) + entry_shape;
    if packed(dtype) {
        Err(CacheError::PackedUnsupported)
    } else if !shape_fits(c) || !shape_fits(entry_shape) {
        Err(CacheError::SelectionTooLarge)
    } else {
        match read_checks(m, sels, dtype, entry_shape, init, total) {
            Err(e) => Err(e),
            Ok(_) => if total * numel(entry_shape) > usize::MAX {
                Err(CacheError::SelectionTooLarge)
            } else if !shape_fits(out_shape) || numel(out_shape) != total * numel(entry_shape) {
                Err(CacheError::MalformedTensor)
            } else {
                let dflt = default_entry(dtype, entry_shape, init)->Ok_0;
                let m2 = with_defaults(m, sels, dflt, total);
                Ok((TensorView { dtype, shape: out_shape, data: concat_entries(m2, sels, total) }, m2))
            },
        }
    }
}

proof fn lemma_numel_pos(s: Seq<usize>)
    ensures
        numel(s) > 0 <==> forall|d: int| 0 <= d < s.len() ==> s[d] > 0,
    decreases s.len(),
{
    if s.len() > 0 {
        lemma_numel_pos(s.drop_first());
        let r = s.drop_first();
        assert(numel(s) == s[0] as nat * numel(r));
        if numel(s) > 0 {
            assert(s[0] > 0 && numel(r) > 0) by (nonlinear_arith)
                requires
                    numel(s) == s[0] as nat * numel(r),
                    numel(s) > 0,
            ;
            assert forall|d: int| 0 <= d < s.len() implies s[d] > 0 by {
                if d > 0 {
                    assert(s[d] == r[d - 1]);
                }
            }
        } else {
            if forall|d: int| 0 <= d < s.len() ==> s[d] > 0 {
                assert forall|d: int| 0 <= d < r.len() implies r[d] > 0 by {
                    assert(r[d] == s[d + 1]);
                }
                assert(s[0] > 0);
                assert(s[0] as nat * numel(r) > 0) by (nonlinear_arith)
                    requires
                        s[0] > 0,
                        numel(r) > 0,
                ;
            }
        }
    }
}

proof fn lemma_counts_pos(c: Seq<usize>)
    requires
        numel(c) > 0,
    ensures
        forall|d: int| 0 <= d < c.len() ==> #[trigger] c[d] > 0,
        forall|d: int| 0 <= d < c.len() ==> #[trigger] stride_of(c, d) > 0,
{
    lemma_numel_pos(c);
    assert forall|d: int| 0 <= d < c.len() implies #[trigger] stride_of(c, d) > 0 by {
        let r = c.subrange(d + 1, c.len() as int);
        lemma_numel_pos(r);
        assert forall|e: int| 0 <= e < r.len() implies r[e] > 0 by {
            assert(r[e] == c[d + 1 + e]);
        }
    }
}

proof fn lemma_read_checks_each(
    m: Map<Seq<usize>, TensorView>,
    sels: Seq<(Seq<usize>, bool)>,
    dtype: DType,
    entry_shape: Seq<usize>,
    init: Option<ScalarValue>,
    n: nat,
)
    requires
        read_checks(m, sels, dtype, entry_shape, init, n) is Ok,
    ensures
        forall|t: int|
            0 <= t < n ==> {
                let k = #[trigger] product_key(sels, t);
                if m.contains_key(k) {
                    entry_compatible(m[k].dtype, dtype) && m[k].data.len() == numel(entry_shape)
                } else {
                    default_entry(dtype, entry_shape, init) is Ok
                }
            },
    decreases n,
{
    if n > 0 {
        lemma_read_checks_each(m, sels, dtype, entry_shape, init, (n - 1) as nat);
    }
}

proof fn lemma_read_checks_err(
    m: Map<Seq<usize>, TensorView>,
    sels: Seq<(Seq<usize>, bool)>,
    dtype: DType,
    entry_shape: Seq<usize>,
    init: Option<ScalarValue>,
    i: nat,
    n: nat,
)
    requires
        i <= n,
        read_checks(m, sels, dtype, entry_shape, init, i) is Err,
    ensures
        read_checks(m, sels, dtype, entry_shape, init, n) == read_checks(
            m,
            sels,
            dtype,
            entry_shape,
            init,
            i,
        ),
    decreases n - i,
{
    if i < n {
        lemma_read_checks_err(m, sels, dtype, entry_shape, init, i, (n - 1) as nat);
    }
}

proof fn lemma_defaults_keep(
    m: Map<Seq<usize>, TensorView>,
    sels: Seq<(Seq<usize>, bool)>,
    dflt: TensorView,
    i: nat,
    n: nat,
    k: Seq<usize>,
)
    requires
        i <= n,
        with_defaults(m, sels, dflt, i).contains_key(k),
    ensures
        with_defaults(m, sels, dflt, n).contains_key(k),
        with_defaults(m, sels, dflt, n)[k] == with_defaults(m, sels, dflt, i)[k],
    decreases n - i,
{
    if i < n {
        lemma_defaults_keep(m, sels, dflt, i, (n - 1) as nat, k);
    }
}

proof fn lemma_defaults_shape(
    m: Map<Seq<usize>, TensorView>,
    sels: Seq<(Seq<usize>, bool)>,
    dflt: TensorView,
    n: nat,
)
    ensures
        forall|k: Seq<usize>|
            #[trigger] with_defaults(m, sels, dflt, n).contains_key(k) ==> (m.contains_key(k)
                && with_defaults(m, sels, dflt, n)[k] == m[k]) || (!m.contains_key(k)
                && with_defaults(m, sels, dflt, n)[k] == dflt),
        forall|k: Seq<usize>| #[trigger] m.contains_key(k) ==> with_defaults(m, sels, dflt, n).contains_key(k),
    decreases n,
{
    if n > 0 {
        lemma_defaults_shape(m, sels, dflt, (n - 1) as nat);
        let m1 = with_defaults(m, sels, dflt, (n - 1) as nat);
        let kk = product_key(sels, n - 1);
        assert forall|k: Seq<usize>|
            #[trigger] with_defaults(m, sels, dflt, n).contains_key(k) implies (m.contains_key(k)
                && with_defaults(m, sels, dflt, n)[k] == m[k]) || (!m.contains_key(k)
                && with_defaults(m, sels, dflt, n)[k] == dflt) by {
            if !m1.contains_key(kk) && k == kk {
                assert(!m.contains_key(k));
            } else {
                assert(m1.contains_key(k));
            }
        }
        assert forall|k: Seq<usize>| #[trigger] m.contains_key(k) implies with_defaults(m, sels, dflt, n).contains_key(k) by {
            assert(m1.contains_key(k));
        }
    }
}

/// Append `v` to `out`.
fn append_u64s(out: &mut Vec<u64>, v: &[u64])
    ensures
        final(out)@ == old(out)@ + v@,
{
    let ghost o = out@;
    let mut i: usize = 0;
    while i < v.len()
        invariant
            i <= v@.len(),
            out@ == o + v@.subrange(0, i as int),
        decreases v@.len() - i,
    {
        out.push(v[i]);
        i = i + 1;
        assert(out@ =~= o + v@.subrange(0, i as int));
    }
    assert(v@.subrange(0, v@.len() as int) =~= v@);
}

/// Whether an entry of type `e` can be read through a table of type `t`.
fn entry_compatible_exec(e: DType, t: DType) -> (r: bool)
    ensures
        r == entry_compatible(e, t),
{
    !e.is_packed() && e.bit_width() == t.bit_width() && (t != DType::Bool || e == DType::Bool)
}

/// The index tuple at row-major position `t` of the product of selections.
fn key_at(sels: &[TableIndexSelection], counts: &Vec<usize>, strides: &Vec<usize>, t: usize) -> (r: Vec<usize>)
    requires
        counts@ == selection_counts(sel_views(sels@)),
        strides@.len() == counts@.len(),
        forall|d: int| 0 <= d < strides@.len() ==> strides@[d] == stride_of(counts@, d),
        t < numel(counts@),
    ensures
        r@ == product_key(sel_views(sels@), t as int),
{
    proof {
        lemma_counts_pos(counts@);
    }
    let mut key: Vec<usize> = Vec::new();
    let mut d: usize = 0;
    while d < sels.len()
        invariant
            d <= sels@.len() == counts@.len() == strides@.len(),
            counts@ == selection_counts(sel_views(sels@)),
            forall|e: int| 0 <= e < strides@.len() ==> strides@[e] == stride_of(counts@, e),
            forall|e: int| 0 <= e < counts@.len() ==> #[trigger] counts@[e] > 0,
            forall|e: int| 0 <= e < counts@.len() ==> #[trigger] stride_of(counts@, e) > 0,
            key@ == product_key(sel_views(sels@), t as int).subrange(0, d as int),
        decreases sels@.len() - d,
    {
        assert(stride_of(counts@, d as int) > 0);
        let digit = (t / strides[d]) % counts[d];
        key.push(sels[d].indices[digit]);
        d = d + 1;
        assert(key@ =~= product_key(sel_views(sels@), t as int).subrange(0, d as int));
    }
    assert(key@ =~= product_key(sel_views(sels@), t as int));
    key
}

/// The initializer a reference points to.
pub open spec fn opt_scalar(init: Option<&ScalarValue>) -> Option<ScalarValue> {
    match init {
        Some(v) => Some(*v),
        None => None,
    }
}

/// The entry a missing index tuple reads as.
fn build_default(dtype: DType, entry_shape: &[usize], init: Option<&ScalarValue>) -> (r: Result<
    TensorValue,
    CacheError,
>)
    requires
        shape_fits(entry_shape@),
    ensures
        match default_entry(dtype, entry_shape@, opt_scalar(init)) {
            Ok(v) => r matches Ok(t) && t@ == v && t.wf(),
            Err(e) => r == Err::<TensorValue, CacheError>(e),
        },
{
    match init {
        Some(v) => match v.to_tensor_value(dtype, entry_shape) {
            Ok(t) => Ok(t),
            Err(_) => Err(CacheError::InitFailed),
        },
        None => {
            let t = TensorValue::zeros(dtype, entry_shape);
            assert(t.data@ =~= Seq::new(storage_units(dtype, numel(entry_shape@)), |i: int| 0u64));
            Ok(t)
        },
    }
}

/// The table `b` equals `a` but for its entries.
pub open spec fn same_but_entries(a: CacheTable, b: CacheTable) -> bool {
    &&& a.decl == b.decl
    &&& a.table_indices == b.table_indices
    &&& a.fixed_sizes == b.fixed_sizes
    &&& a.sizes == b.sizes
}

/// Read the entries at every index tuple of the product of `selections`,
/// in row-major order, as one tensor whose shape is the sizes of the
/// non-single selections followed by `entry_shape`. An index tuple with no
/// entry reads as the initializer (or zeros) and is stored so.
#[verifier::loop_isolation(false)]
#[verifier::rlimit(60)]
pub fn read_table_selection(
    table: &mut CacheTable,
    selections: &[TableIndexSelection],
    entry_shape: &[usize],
    init: Option<&ScalarValue>,
) -> (r: Result<TensorValue, CacheError>)
    requires
        old(table).wf(),
    ensures
        final(table).wf(),
        same_but_entries(*old(table), *final(table)),
        selections@.len() != old(table).table_indices@.len() ==> r == Err::<TensorValue, CacheError>(
            CacheError::IndexCountMismatch,
        ) && final(table).entries == old(table).entries,
        selections@.len() == old(table).table_indices@.len() ==> match read_selection_spec(
            old(table).entries_view(),
            sel_views(selections@),
            old(table).decl.dtype,
            entry_shape@,
            opt_scalar(init),
        ) {
            Ok((out, m2)) => r matches Ok(t) && t@ == out && t.wf() && final(table).entries_view()
                == m2,
            Err(e) => r == Err::<TensorValue, CacheError>(e) && final(table).entries == old(
                table,
            ).entries,
        },
{
    if selections.len() != table.table_indices.len() {
        return Err(CacheError::IndexCountMismatch);
    }
    let dtype = table.decl.dtype;
    let ghost m = table.entries_view();
    let ghost iv = opt_scalar(init);
    let ghost sels = sel_views(selections@);
    let mut counts: Vec<usize> = Vec::new();
    let mut out_shape: Vec<usize> = Vec::new();
    let mut d: usize = 0;
    while d < selections.len()
        invariant
            d <= sels.len(),
            counts@ == selection_counts(sels).subrange(0, d as int),
            out_shape@ == nonscalar_counts(sels.subrange(0, d as int)),
        decreases sels.len() - d,
    {
        proof {
            let sub = sels.subrange(0, d + 1);
            assert(sub.drop_last() =~= sels.subrange(0, d as int));
        }
        counts.push(selections[d].indices.len());
        if !selections[d].is_scalar {
            out_shape.push(selections[d].indices.len());
        }
        d = d + 1;
        assert(counts@ =~= selection_counts(sels).subrange(0, d as int));
        assert(out_shape@ =~= nonscalar_counts(sels.subrange(0, d as int)));
    }
    assert(counts@ =~= selection_counts(sels));
    assert(sels.subrange(0, sels.len() as int) =~= sels);
    if dtype.is_packed() {
        return Err(CacheError::PackedUnsupported);
    }
    if !shape_fits_exec(&counts) {
        return Err(CacheError::SelectionTooLarge);
    }
    let es = copy_usizes(entry_shape);
    if !shape_fits_exec(&es) {
        return Err(CacheError::SelectionTooLarge);
    }
    let total = numel_exec(&counts);
    let entry_len = numel_exec(&es);
    let strides = row_major_strides(&counts);
    let ghost e0 = table.entries@;
    let mut dflt: Option<TensorValue> = None;
    let mut t: usize = 0;
    while t < total
        invariant
            t <= total == numel(counts@),
            table.entries@ == e0,
            table.wf(),
            read_checks(m, sels, dtype, es@, iv, t as nat) is Ok,
            dflt matches Some(dv) ==> dv@ == default_entry(dtype, es@, iv)->Ok_0 && dv.wf()
                && default_entry(dtype, es@, iv) is Ok,
            dflt is None ==> forall|s: int| 0 <= s < t ==> m.contains_key(#[trigger] product_key(sels, s)),
        decreases total - t,
    {
        let key = key_at(selections, &counts, &strides, t);
        match find_entry(&table.entries, key.as_slice()) {
            Some(i) => {
                proof {
                    lemma_entry_at(table.entries@, i as int);
                }
                if !entry_compatible_exec(table.entries[i].1.dtype, dtype) {
                    proof {
                        lemma_read_checks_err(m, sels, dtype, es@, iv, (t + 1) as nat, total as nat);
                    }
                    return Err(CacheError::EntryDtypeMismatch);
                }
                if table.entries[i].1.data.len() != entry_len {
                    proof {
                        lemma_read_checks_err(m, sels, dtype, es@, iv, (t + 1) as nat, total as nat);
                    }
                    return Err(CacheError::EntryLengthMismatch);
                }
            },
            None => {
                if dflt.is_none() {
                    match build_default(dtype, es.as_slice(), init) {
                        Ok(dv) => {
                            dflt = Some(dv);
                        },
                        Err(e) => {
                            proof {
                                lemma_read_checks_err(m, sels, dtype, es@, iv, (t + 1) as nat, total as nat);
                            }
                            return Err(e);
                        },
                    }
                }
            },
        }
        t = t + 1;
    }
    proof {
        lemma_read_checks_each(m, sels, dtype, es@, iv, total as nat);
    }
    let out_len = match total.checked_mul(entry_len) {
        Some(v) => v,
        None => return Err(CacheError::SelectionTooLarge),
    };
    let ghost ns = out_shape@;
    let mut k: usize = 0;
    while k < es.len()
        invariant
            k <= es@.len(),
            out_shape@ == ns + es@.subrange(0, k as int),
        decreases es@.len() - k,
    {
        out_shape.push(es[k]);
        k = k + 1;
        assert(out_shape@ =~= ns + es@.subrange(0, k as int));
    }
    assert(es@.subrange(0, es@.len() as int) =~= es@);
    if !shape_fits_exec(&out_shape) {
        return Err(CacheError::MalformedTensor);
    }
    if numel_exec(&out_shape) != out_len {
        return Err(CacheError::MalformedTensor);
    }
    let ghost dv = default_entry(dtype, es@, iv)->Ok_0;
    let ghost mfinal = with_defaults(m, sels, dv, total as nat);
    let mut out: Vec<u64> = Vec::new();
    t = 0;
    while t < total
        invariant
            t <= total == numel(counts@),
            table.wf(),
            same_but_entries(*old(table), *table),
            table.entries_view() == with_defaults(m, sels, dv, t as nat),
            out@ == concat_entries(mfinal, sels, t as nat),
            out@.len() == t * entry_len,
            forall|j: int| 0 <= j < out@.len() ==> #[trigger] out@[j] <= elem_max(dtype),
        decreases total - t,
    {
        let key = key_at(selections, &counts, &strides, t);
        proof {
            lemma_defaults_shape(m, sels, dv, t as nat);
            lemma_defaults_shape(m, sels, dv, (t + 1) as nat);
        }
        let ghost cur = table.entries@;
        match find_entry(&table.entries, key.as_slice()) {
            Some(i) => {
                proof {
                    lemma_entry_at(cur, i as int);
                    lemma_defaults_keep(m, sels, dv, t as nat, total as nat, key@);
                    assert(with_defaults(m, sels, dv, (t + 1) as nat) == with_defaults(m, sels, dv, t as nat));
                }
                let ghost blk = table.entries@[i as int].1.data@;
                append_u64s(&mut out, table.entries[i].1.data.as_slice());
                proof {
                    assert(blk.len() == entry_len);
                    assert forall|j: int| 0 <= j < out@.len() implies #[trigger] out@[j] <= elem_max(dtype) by {
                        if j >= t * entry_len {
                            let q = j - t * entry_len;
                            assert(out@[j] == blk[q]);
                            assert(view_wf(cur[i as int].1@));
                        }
                    }
                    assert((t + 1) * entry_len == t * entry_len + entry_len) by (nonlinear_arith);
                }
            },
            None => {
                let dv_exec = match &dflt {
                    Some(x) => x,
                    None => {
                        proof {
                            assert(m.contains_key(product_key(sels, t as int)));
                        }
                        return Err(CacheError::InitFailed);
                    },
                };
                proof {
                    assert(!m.contains_key(key@));
                    lemma_defaults_keep(m, sels, dv, (t + 1) as nat, total as nat, key@);
                }
                let copy = dv_exec.clone_value();
                put_entry(&mut table.entries, key, copy);
                append_u64s(&mut out, dv_exec.data.as_slice());
                proof {
                    assert forall|a: int| 0 <= a < table.entries@.len() implies (#[trigger] table.entries@[a]).0@.len()
                        == table.table_indices@.len() && view_wf(table.entries@[a].1@) by {
                        if !(table.entries@[a].0@ == key@) {
                            let j = choose|j: int| 0 <= j < cur.len() && cur[j] == table.entries@[a];
                            assert(cur[j] == table.entries@[a]);
                        }
                    }
                    assert forall|j: int| 0 <= j < out@.len() implies #[trigger] out@[j] <= elem_max(dtype) by {
                        if j >= t * entry_len {
                            let q = j - t * entry_len;
                            assert(out@[j] == dv.data[q]);
                        }
                    }
                    assert((t + 1) * entry_len == t * entry_len + entry_len) by (nonlinear_arith);
                }
            },
        }
        t = t + 1;
    }
    Ok(TensorValue { dtype, shape: out_shape, data: out })
}

/// Every selection is a single position.
pub open spec fn all_scalar(sels: Seq<(Seq<usize>, bool)>) -> bool {
    forall|d: int| 0 <= d < sels.len() ==> (#[trigger] sels[d]).1
}

/// The index tuple a write addresses: the first position of each selection.
pub open spec fn write_key(sels: Seq<(Seq<usize>, bool)>) -> Seq<usize> {
    Seq::new(
        sels.len(),
        |d: int| if sels[d].0.len() > 0 {
            sels[d].0[0]
        } else {
            0usize
        },
    )
}

/// Store `src` as the entry at the index tuple the selections address:
/// every selection must be a single position and `src` must have the entry
/// shape.
#[verifier::loop_isolation(false)]
pub fn write_table_entry(
    table: &mut CacheTable,
    selections: &[TableIndexSelection],
    entry_shape: &[usize],
    src: &TensorValue,
) -> (r: Result<(), CacheError>)
    requires
        old(table).wf(),
        src.wf(),
        selections@.len() == old(table).table_indices@.len(),
    ensures
        final(table).wf(),
        same_but_entries(*old(table), *final(table)),
        !all_scalar(sel_views(selections@)) ==> r == Err::<(), CacheError>(CacheError::WriteNeedsScalarIndices)
            && final(table).entries == old(table).entries,
        all_scalar(sel_views(selections@)) && src.shape@ != entry_shape@ ==> r == Err::<(), CacheError>(
            CacheError::WriteShapeMismatch,
        ) && final(table).entries == old(table).entries,
        all_scalar(sel_views(selections@)) && src.shape@ == entry_shape@ ==> r is Ok
            && final(table).entries_view() == old(table).entries_view().insert(
            write_key(sel_views(selections@)),
            src@,
        ),
{
    let mut i: usize = 0;
    while i < selections.len()
        invariant
            i <= selections@.len(),
            forall|d: int| 0 <= d < i ==> (#[trigger] selections@[d]).is_scalar,
        decreases selections@.len() - i,
    {
        if !selections[i].is_scalar {
            assert(!sel_views(selections@)[i as int].1);
            return Err(CacheError::WriteNeedsScalarIndices);
        }
        i = i + 1;
    }
    let mut key: Vec<usize> = Vec::new();
    let mut d: usize = 0;
    while d < selections.len()
        invariant
            d <= selections@.len(),
            key@ == write_key(sel_views(selections@)).subrange(0, d as int),
        decreases selections@.len() - d,
    {
        if selections[d].indices.len() > 0 {
            key.push(selections[d].indices[0]);
        } else {
            key.push(0);
        }
        d = d + 1;
        assert(key@ =~= write_key(sel_views(selections@)).subrange(0, d as int));
    }
    assert(key@ =~= write_key(sel_views(selections@)));
    if !same_key(src.shape.as_slice(), entry_shape) {
        return Err(CacheError::WriteShapeMismatch);
    }
    let ghost cur = table.entries@;
    let ghost kv = key@;
    let copy = src.clone_value();
    put_entry(&mut table.entries, key, copy);
    proof {
        assert forall|a: int| 0 <= a < table.entries@.len() implies (#[trigger] table.entries@[a]).0@.len()
            == table.table_indices@.len() && view_wf(table.entries@[a].1@) by {
            if !(table.entries@[a].0@ == kv) {
                let j = choose|j: int| 0 <= j < cur.len() && cur[j] == table.entries@[a];
                assert(cur[j] == table.entries@[a]);
            }
        }
    }
    Ok(())
}

/// Index tuple `k` begins with `p`.
pub open spec fn has_prefix(k: Seq<usize>, p: Seq<usize>) -> bool {
    p.len() <= k.len() && k.subrange(0, p.len() as int) == p
}

/// Whether `k` begins with `p`.
fn has_prefix_exec(k: &[usize], p: &[usize]) -> (r: bool)
    ensures
        r == has_prefix(k@, p@),
{
    if k.len() < p.len() {
        return false;
    }
    let mut i: usize = 0;
    while i < p.len()
        invariant
            i <= p@.len() <= k@.len(),
            forall|j: int| 0 <= j < i ==> k@[j] == p@[j],
        decreases p@.len() - i,
    {
        if k[i] != p[i] {
            assert(k@.subrange(0, p@.len() as int)[i as int] != p@[i as int]);
            return false;
        }
        i = i + 1;
    }
    assert(k@.subrange(0, p@.len() as int) =~= p@);
    true
}

/// Two entries hold the same index tuple and tensor.
pub open spec fn same_entry(a: (Vec<usize>, TensorValue), b: (Vec<usize>, TensorValue)) -> bool {
    a.0@ == b.0@ && a.1@ == b.1@
}

/// Remove every entry whose index tuple begins with `prefix`.
pub fn remove_entries_with_prefix(table: &mut CacheTable, prefix: &[usize])
    requires
        old(table).wf(),
    ensures
        final(table).wf(),
        same_but_entries(*old(table), *final(table)),
        final(table).entries_view() == Map::new(
            |k: Seq<usize>| old(table).entries_view().contains_key(k) && !has_prefix(k, prefix@),
            |k: Seq<usize>| old(table).entries_view()[k],
        ),
{
    let ghost old_e = table.entries@;
    let ghost mut origin: Seq<int> = Seq::empty();
    let mut kept: Vec<(Vec<usize>, TensorValue)> = Vec::new();
    let mut i: usize = 0;
    let n = table.entries.len();
    while i < n
        invariant
            i <= n == table.entries@.len(),
            table.entries@ == old_e,
            table.wf(),
            keys_unique(kept@),
            origin.len() == kept@.len(),
            forall|a: int|
                0 <= a < kept@.len() ==> 0 <= #[trigger] origin[a] < i && same_entry(
                    kept@[a],
                    old_e[origin[a]],
                ) && !has_prefix(old_e[origin[a]].0@, prefix@),
            forall|j: int|
                0 <= j < i && !has_prefix(old_e[j].0@, prefix@) ==> has_key(kept@, (#[trigger] old_e[j]).0@),
        decreases n - i,
    {
        if !has_prefix_exec(table.entries[i].0.as_slice(), prefix) {
            let key = copy_usizes(table.entries[i].0.as_slice());
            let val = table.entries[i].1.clone_value();
            let ghost kv = (key, val);
            proof {
                if has_key(kept@, kv.0@) {
                    let a = choose|a: int| 0 <= a < kept@.len() && (#[trigger] kept@[a]).0@ == kv.0@;
                    assert(origin[a] < i);
                    assert(old_e[origin[a]].0@ != old_e[i as int].0@);
                }
                lemma_entry_push(kept@, kv);
            }
            let ghost before = kept@;
            kept.push((key, val));
            proof {
                origin = origin.push(i as int);
                assert forall|j: int|
                    0 <= j < i + 1 && !has_prefix(old_e[j].0@, prefix@) implies has_key(
                    kept@,
                    (#[trigger] old_e[j]).0@,
                ) by {
                    if j < i {
                        let a = choose|a: int| 0 <= a < before.len() && (#[trigger] before[a]).0@ == old_e[j].0@;
                        assert(kept@[a] == before[a]);
                    } else {
                        assert(kept@[before.len() as int].0@ == old_e[j].0@);
                    }
                }
            }
        }
        i = i + 1;
    }
    proof {
        let target = Map::new(
            |k: Seq<usize>| entry_map(old_e).contains_key(k) && !has_prefix(k, prefix@),
            |k: Seq<usize>| entry_map(old_e)[k],
        );
        assert forall|k: Seq<usize>| #[trigger] entry_map(kept@).contains_key(k) == target.contains_key(k) by {
            if entry_map(kept@).contains_key(k) {
                let a = choose|a: int| 0 <= a < kept@.len() && (#[trigger] kept@[a]).0@ == k;
                assert(old_e[origin[a]].0@ == k);
                assert(has_key(old_e, k));
            }
            if target.contains_key(k) {
                let j = choose|j: int| 0 <= j < old_e.len() && (#[trigger] old_e[j]).0@ == k;
                assert(has_key(kept@, old_e[j].0@));
            }
        }
        assert forall|k: Seq<usize>| #[trigger] entry_map(kept@).contains_key(k) implies entry_map(kept@)[k]
            == target[k] by {
            let a = choose|a: int| 0 <= a < kept@.len() && (#[trigger] kept@[a]).0@ == k;
            assert(origin[a] < n);
            lemma_entry_at(kept@, a);
            lemma_entry_at(old_e, origin[a]);
        }
        assert(entry_map(kept@) =~= target);
        assert forall|a: int| 0 <= a < kept@.len() implies (#[trigger] kept@[a]).0@.len()
            == table.table_indices@.len() && view_wf(kept@[a].1@) by {
            assert(origin[a] < n);
            assert(old_e[origin[a]] == table.entries@[origin[a]]);
        }
    }
    table.entries = kept;
}

/// Reset a table. With no indices every entry goes and the sizes return to
/// their starting values; with single indices the entries under that index
/// prefix go and the sizes are recomputed from what remains.
pub fn reset_table_entries(
    table: &mut CacheTable,
    access: &CacheAccess,
    resolved: &[ResolvedCacheIndexExpr],
    decl: &VarDecl,
) -> (r: Result<(), CacheError>)
    requires
        old(table).wf(),
    ensures
        final(table).wf(),
        final(table).decl == old(table).decl,
        final(table).table_indices == old(table).table_indices,
        !access.bracketed || access.indices@.len() == 0 ==> r is Ok && final(table).entries@.len()
            == 0,
        access.bracketed && access.indices@.len() > 0 && !all_single(resolved@) ==> r == Err::<
            (),
            CacheError,
        >(CacheError::ResetNeedsScalarIndices) && *final(table) == *old(table),
        access.bracketed && access.indices@.len() > 0 && all_single(resolved@) ==> r is Ok
            && final(table).entries_view() == Map::new(
            |k: Seq<usize>|
                old(table).entries_view().contains_key(k) && !has_prefix(
                    k,
                    Seq::new(resolved@.len(), |i: int| resolved@[i]->Single_0),
                ),
            |k: Seq<usize>| old(table).entries_view()[k],
        ),
{
    if !access.bracketed || access.indices.len() == 0 {
        table.entries = Vec::new();
        reset_cache_table_sizes(table, decl)?;
        return Ok(());
    }
    let prefixes = resolve_table_prefix_indices_from_resolved(access, resolved)?;
    remove_entries_with_prefix(table, prefixes.as_slice());
    recompute_cache_table_sizes(table, decl)?;
    Ok(())
}

proof fn lemma_ones_numel(c: Seq<usize>)
    requires
        forall|d: int| 0 <= d < c.len() ==> c[d] == 1,
    ensures
        numel(c) == 1,
    decreases c.len(),
{
    if c.len() > 0 {
        lemma_ones_numel(c.drop_first());
    }
}

proof fn lemma_nonscalar_empty(sels: Seq<(Seq<usize>, bool)>)
    requires
        all_scalar(sels),
    ensures
        nonscalar_counts(sels) == Seq::<usize>::empty(),
    decreases sels.len(),
{
    if sels.len() > 0 {
        lemma_nonscalar_empty(sels.drop_last());
    }
}

/// Reading a table at the single-position index tuple that was last written
/// gives back the written data, in the table's element type and the entry
/// shape, and leaves the entries as they were.
pub proof fn law_read_after_write(
    m: Map<Seq<usize>, TensorView>,
    sels: Seq<(Seq<usize>, bool)>,
    dtype: DType,
    entry_shape: Seq<usize>,
    init: Option<ScalarValue>,
    v: TensorView,
)
    requires
        forall|d: int| 0 <= d < sels.len() ==> (#[trigger] sels[d]).1 && sels[d].0.len() == 1,
        !packed(dtype),
        shape_fits(entry_shape),
        entry_compatible(v.dtype, dtype),
        v.data.len() == numel(entry_shape),
    ensures
        read_selection_spec(m.insert(write_key(sels), v), sels, dtype, entry_shape, init) == Ok::<
            (TensorView, Map<Seq<usize>, TensorView>),
            CacheError,
        >((TensorView { dtype, shape: entry_shape, data: v.data }, m.insert(write_key(sels), v))),
{
    let m1 = m.insert(write_key(sels), v);
    let c = selection_counts(sels);
    lemma_ones_numel(c);
    assert forall|i: int| 0 <= i <= c.len() implies #[trigger] numel(c.subrange(i, c.len() as int)) <= usize::MAX by {
        lemma_ones_numel(c.subrange(i, c.len() as int));
    }
    assert forall|d: int| 0 <= d < sels.len() implies #[trigger] stride_of(c, d) == 1 by {
        lemma_ones_numel(c.subrange(d + 1, c.len() as int));
    }
    assert(product_key(sels, 0) =~= write_key(sels));
    assert(read_checks(m1, sels, dtype, entry_shape, init, 0) is Ok);
    assert(read_checks(m1, sels, dtype, entry_shape, init, 1) is Ok);
    assert(numel(entry_shape.subrange(0, entry_shape.len() as int)) <= usize::MAX);
    assert(entry_shape.subrange(0, entry_shape.len() as int) =~= entry_shape);
    lemma_nonscalar_empty(sels);
    assert(Seq::<usize>::empty() + entry_shape =~= entry_shape);
    let dflt = default_entry(dtype, entry_shape, init)->Ok_0;
    assert(with_defaults(m1, sels, dflt, 0) == m1);
    assert(m1.contains_key(product_key(sels, 0)));
    assert(with_defaults(m1, sels, dflt, 1) == m1);
    assert(concat_entries(m1, sels, 0) =~= Seq::<u64>::empty());
    assert(m1[product_key(sels, 0)] == v);
    assert(concat_entries(m1, sels, 1) =~= v.data);
}

} // verus!
