use openinfer::cache::{CacheError, TableIndexSelection};
use openinfer::cache_table::{build_cache_table, read_table_selection};
use openinfer::cache_store::CacheStore;
use openinfer::dtype::DType;
use openinfer::graph::{CacheAccess, CacheIndexExpr, CacheIndexValue, MemoryKind, ScalarValue, VarDecl};
use openinfer::model_loader::ModelLoader;
use openinfer::tensor::TensorValue;
use vstd::hash_map::StringHashMap;

fn push_u32(out: &mut Vec<u8>, v: u32) {
    out.extend_from_slice(&v.to_le_bytes());
}

fn push_u64(out: &mut Vec<u8>, v: u64) {
    out.extend_from_slice(&v.to_le_bytes());
}

/// A model file with the given size variables and nothing else.
fn model_with_sizes(sizes: &[(&str, u64)]) -> ModelLoader {
    let mut body = Vec::new();
    for (name, value) in sizes {
        let start = body.len();
        push_u32(&mut body, name.len() as u32);
        body.extend_from_slice(name.as_bytes());
        while (body.len() - start) % 8 != 0 {
            body.push(0);
        }
        push_u64(&mut body, *value);
    }
    let total = 72 + body.len() as u64;
    let mut data = Vec::new();
    data.extend_from_slice(b"OINF\0");
    push_u32(&mut data, 2);
    push_u32(&mut data, 0);
    push_u32(&mut data, sizes.len() as u32);
    push_u32(&mut data, 0);
    push_u32(&mut data, 0);
    push_u32(&mut data, 0);
    push_u64(&mut data, 72);
    push_u64(&mut data, total);
    push_u64(&mut data, total);
    push_u64(&mut data, total);
    push_u64(&mut data, total);
    while data.len() < 72 {
        data.push(0);
    }
    data.extend_from_slice(&body);
    ModelLoader::parse(data).unwrap()
}

fn decl(name: &str, dtype: DType, dims: &[&str]) -> VarDecl {
    VarDecl {
        name: name.to_string(),
        dtype,
        dims: dims.iter().map(|d| d.to_string()).collect(),
        kind: MemoryKind::Persistent,
        init: None,
        fixed: vec![],
        table_indices: vec![],
        auto_dim: vec![],
        table: false,
        ref_name: None,
    }
}

fn access(base: &str, bracketed: bool, indices: Vec<CacheIndexExpr>) -> CacheAccess {
    CacheAccess { base: base.to_string(), indices, bracketed }
}

fn lit(v: i64) -> CacheIndexExpr {
    CacheIndexExpr::Single(CacheIndexValue::Lit(v))
}

fn vars_of(decls: &[VarDecl]) -> StringHashMap<VarDecl> {
    let mut m = StringHashMap::new();
    for d in decls {
        m.insert(d.name.clone(), d.clone());
    }
    m
}

#[test]
fn value_write_then_read_gives_back_written() {
    let model = model_with_sizes(&[("N", 3)]);
    let d = decl("state", DType::I32, &["N"]);
    let vars = vars_of(&[d.clone()]);
    let loops = StringHashMap::new();
    let mut store = CacheStore::new(&[d.clone()], &model).unwrap();
    let src = TensorValue::new(DType::I32, vec![3], vec![7, 8, 9]).unwrap();
    let a = access("state", false, vec![]);
    assert_eq!(store.write(&src, &a, &d, &vars, &model, &loops), Ok(()));
    let back = store.read(&a, &d, &vars, &model, &loops).unwrap();
    assert_eq!(back.shape, vec![3]);
    assert_eq!(back.data, vec![7, 8, 9]);
}

#[test]
fn value_read_starts_from_zeros_or_initializer() {
    let model = model_with_sizes(&[("N", 2)]);
    let mut d = decl("counter", DType::U8, &["N"]);
    d.init = Some(ScalarValue { bits: 5 });
    let vars = vars_of(&[d.clone()]);
    let loops = StringHashMap::new();
    let mut store = CacheStore::new(&[d.clone()], &model).unwrap();
    let v = store.read(&access("counter", false, vec![]), &d, &vars, &model, &loops).unwrap();
    assert_eq!(v.data, vec![5, 5]);
    assert!(store.has_persistent("counter"));
}

#[test]
fn value_reset_then_read_gives_starting_value() {
    let model = model_with_sizes(&[("N", 2)]);
    let d = decl("acc", DType::I64, &["N"]);
    let vars = vars_of(&[d.clone()]);
    let loops = StringHashMap::new();
    let mut store = CacheStore::new(&[d.clone()], &model).unwrap();
    let src = TensorValue::new(DType::I64, vec![2], vec![1, 2]).unwrap();
    let a = access("acc", false, vec![]);
    store.write(&src, &a, &d, &vars, &model, &loops).unwrap();
    assert_eq!(store.reset(&a, &d, &vars, &model, &loops), Ok(()));
    assert_eq!(store.read(&a, &d, &vars, &model, &loops).unwrap().data, vec![0, 0]);
}

#[test]
fn indexed_access_needs_growing_variable() {
    let model = model_with_sizes(&[("N", 2)]);
    let d = decl("plain", DType::I32, &["N"]);
    let vars = vars_of(&[d.clone()]);
    let loops = StringHashMap::new();
    let mut store = CacheStore::new(&[d.clone()], &model).unwrap();
    assert_eq!(
        store.read(&access("plain", true, vec![lit(0)]), &d, &vars, &model, &loops).err(),
        Some(CacheError::IndexedAccessUnsupported)
    );
    let src = TensorValue::new(DType::I32, vec![2], vec![1, 2]).unwrap();
    assert_eq!(
        store.write(&src, &access("plain", true, vec![lit(0)]), &d, &vars, &model, &loops),
        Err(CacheError::IndexedWriteUnsupported)
    );
}

#[test]
fn growing_variable_grows_to_read_position() {
    let model = model_with_sizes(&[]);
    let mut d = decl("kv", DType::U8, &["0"]);
    d.auto_dim = vec!["t".to_string()];
    let vars = vars_of(&[d.clone()]);
    let loops = StringHashMap::new();
    let mut store = CacheStore::new(&[d.clone()], &model).unwrap();
    let v = store.read(&access("kv", true, vec![lit(3)]), &d, &vars, &model, &loops).unwrap();
    assert_eq!(v.shape, vec![3]);
    assert_eq!(v.data, vec![0, 0, 0]);
    let src = TensorValue::new(DType::U8, vec![2], vec![1, 2]).unwrap();
    assert_eq!(
        store.write(&src, &access("kv", false, vec![]), &d, &vars, &model, &loops),
        Err(CacheError::WriteShapeMismatch)
    );
    let src = TensorValue::new(DType::U8, vec![3], vec![4, 5, 6]).unwrap();
    assert_eq!(store.write(&src, &access("kv", false, vec![]), &d, &vars, &model, &loops), Ok(()));
    let slice = store
        .read(
            &access(
                "kv",
                true,
                vec![CacheIndexExpr::Slice { start: Some(CacheIndexValue::Lit(1)), end: None }],
            ),
            &d,
            &vars,
            &model,
            &loops,
        )
        .unwrap();
    assert_eq!(slice.shape, vec![2]);
    assert_eq!(slice.data, vec![5, 6]);
}

#[test]
fn index_names_resolve_from_sizes_loops_and_persistent_scalars() {
    let model = model_with_sizes(&[("B", 2)]);
    let mut counter = decl("pos", DType::I64, &[]);
    counter.init = Some(ScalarValue { bits: 1 });
    let vars = vars_of(&[counter.clone()]);
    let mut loops = StringHashMap::new();
    loops.insert("i".to_string(), 7i64);
    let mut store = CacheStore::new(&[counter.clone()], &model).unwrap();
    let ident = |n: &str| CacheIndexValue::Ident(n.to_string());
    assert_eq!(store.resolve_cache_index_value_with_map(&CacheIndexValue::Lit(-4), &vars, &model, &loops, None), Ok(-4));
    assert_eq!(store.resolve_cache_index_value_with_map(&ident("B"), &vars, &model, &loops, None), Ok(2));
    assert_eq!(store.resolve_cache_index_value_with_map(&ident("i"), &vars, &model, &loops, None), Ok(7));
    assert_eq!(store.resolve_cache_index_value_with_map(&ident("pos"), &vars, &model, &loops, None), Ok(1));
    assert_eq!(
        store.resolve_cache_index_value_with_map(&ident("nope"), &vars, &model, &loops, None),
        Err(CacheError::UnknownCacheIndex)
    );
    assert_eq!(
        store.resolve_cache_index_value_usize_with_map(&CacheIndexValue::Lit(-1), &vars, &model, &loops, None),
        Err(CacheError::NegativeCacheIndex)
    );
}

#[test]
fn persistent_set_then_get() {
    let mut store = CacheStore::empty();
    let v = TensorValue::new(DType::U16, vec![2], vec![3, 4]).unwrap();
    store.set_persistent("x", v);
    assert_eq!(store.get_persistent("x").unwrap().data, vec![3, 4]);
    assert!(store.get_persistent("y").is_none());
}

#[test]
fn bump_adds_and_subtracts() {
    let model = model_with_sizes(&[]);
    let d = decl("n", DType::I32, &[]);
    let vars = vars_of(&[d.clone()]);
    let mut store = CacheStore::new(&[d.clone()], &model).unwrap();
    assert_eq!(store.bump("n", 5, false, &vars, &model), Ok(()));
    assert_eq!(store.bump("n", 2, true, &vars, &model), Ok(()));
    assert_eq!(store.get_persistent("n").unwrap().data, vec![3]);
    assert_eq!(store.bump("missing", 1, false, &vars, &model), Err(CacheError::UnknownVariable));
}

#[test]
fn table_write_then_read_at_same_indices() {
    let model = model_with_sizes(&[]);
    let mut d = decl("tbl", DType::I32, &["2"]);
    d.table_indices = vec!["k".to_string()];
    d.table = true;
    let vars = vars_of(&[d.clone()]);
    let loops = StringHashMap::new();
    let mut store = CacheStore::new(&[d.clone()], &model).unwrap();
    let src = TensorValue::new(DType::I32, vec![2], vec![11, 12]).unwrap();
    assert_eq!(store.write(&src, &access("tbl", true, vec![lit(1)]), &d, &vars, &model, &loops), Ok(()));
    let back = store.read(&access("tbl", true, vec![lit(1)]), &d, &vars, &model, &loops).unwrap();
    assert_eq!(back.data, vec![11, 12]);
    assert_eq!(
        store.read(&access("tbl", false, vec![]), &d, &vars, &model, &loops).err(),
        Some(CacheError::IndicesRequired)
    );
}

#[test]
fn table_reads_need_one_selection_per_index() {
    let mut d = decl("tab", DType::U8, &["2"]);
    d.table = true;
    d.table_indices = vec!["i".to_string()];
    let mut table = build_cache_table(&d).unwrap();
    let one = TableIndexSelection { indices: vec![0], is_scalar: true };
    let two = TableIndexSelection { indices: vec![1], is_scalar: true };
    assert_eq!(read_table_selection(&mut table, &[one.clone(), two], &[2], None).err(), Some(CacheError::IndexCountMismatch));
    assert_eq!(read_table_selection(&mut table, &[], &[2], None).err(), Some(CacheError::IndexCountMismatch));
    let t = read_table_selection(&mut table, &[one], &[2], None).unwrap();
    assert_eq!((t.shape, t.data), (vec![2], vec![0, 0]));
}
