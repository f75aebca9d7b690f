use openinfer::dtype::DType;
use openinfer::graph::{CacheAccess, CacheIndexExpr, CacheIndexValue, MemoryKind, VarDecl};
use openinfer::model_loader::ModelLoader;
use openinfer::oinf::{read_string, LoadError};
use openinfer::op_runner::{exec_op, ExecOpError, OpSchemaInfo};
use openinfer::runtime::{format_trace_timing, ValidationError};
use openinfer::tensor::TensorValue;
use openinfer::validation::{OpSchemaCheck, ParamDef, ParamKind, ValidationContext};
use openinfer::vk_common::{AttrValue, OpAttr, OpAttrs};
use openinfer::vk_dispatch::{OpKey, OpKind, OpMode};
use vstd::hash_map::StringHashMap;

fn empty_model() -> ModelLoader {
    let mut data = Vec::new();
    data.extend_from_slice(b"OINF\0");
    data.extend_from_slice(&2u32.to_le_bytes());
    data.extend_from_slice(&[0u8; 20]);
    for _ in 0..5 {
        data.extend_from_slice(&72u64.to_le_bytes());
    }
    while data.len() < 72 {
        data.push(0);
    }
    ModelLoader::parse(data).unwrap()
}

fn decl(name: &str, dtype: DType, dims: &[&str], kind: MemoryKind) -> VarDecl {
    VarDecl {
        name: name.to_string(),
        dtype,
        dims: dims.iter().map(|d| d.to_string()).collect(),
        kind,
        init: None,
        fixed: vec![],
        table_indices: vec![],
        auto_dim: vec![],
        table: false,
        ref_name: None,
    }
}

fn setup(decls: &[VarDecl]) -> (ValidationContext, StringHashMap<VarDecl>, ModelLoader) {
    let model = empty_model();
    let mut ctx = ValidationContext::new();
    assert_eq!(ctx.validate_vars(decls, &model), Ok(()));
    let mut vars = StringHashMap::new();
    for d in decls {
        vars.insert(d.name.clone(), d.clone());
    }
    (ctx, vars, model)
}

#[test]
fn declarations_register_once() {
    let model = empty_model();
    let mut ctx = ValidationContext::new();
    let a = decl("a", DType::F32, &["2"], MemoryKind::Dynamic);
    assert_eq!(ctx.validate_vars(&[a.clone()], &model), Ok(()));
    assert_eq!(ctx.var_dtype("a[0]"), Ok(DType::F32));
    assert_eq!(ctx.var_shape("a").unwrap(), vec![2]);
    assert_eq!(ctx.validate_vars(&[a], &model), Err(ValidationError::DuplicateDeclaration));
    let bad = decl("b", DType::F32, &["N"], MemoryKind::Dynamic);
    assert_eq!(ctx.validate_vars(&[bad], &model), Err(ValidationError::InvalidDims));
    let blank = decl("  ", DType::F32, &[], MemoryKind::Dynamic);
    assert_eq!(ctx.validate_vars(&[blank], &model), Err(ValidationError::EmptyVariableName));
    let mut t = decl("t", DType::F32, &[], MemoryKind::Persistent);
    t.table = true;
    assert_eq!(ctx.validate_vars(&[t], &model), Err(ValidationError::TableMissingIndices));
}

#[test]
fn cache_reads_and_writes_are_checked() {
    let cache = decl("c", DType::I32, &["4"], MemoryKind::Persistent);
    let out = decl("o", DType::I32, &["4"], MemoryKind::Volatile);
    let other = decl("f", DType::F32, &["4"], MemoryKind::Volatile);
    let k = decl("k", DType::I32, &[], MemoryKind::Constant);
    let (ctx, vars, model) = setup(&[cache, out, other, k]);
    let whole = CacheAccess { base: "c".to_string(), indices: vec![], bracketed: false };
    assert_eq!(ctx.validate_cache_read(&whole, "o", &vars, &model, &[]), Ok(()));
    assert_eq!(ctx.validate_cache_read(&whole, "f", &vars, &model, &[]), Err(ValidationError::DtypeMismatch));
    assert_eq!(ctx.validate_cache_read(&whole, "k", &vars, &model, &[]), Err(ValidationError::OutputNotMutable));
    assert_eq!(ctx.validate_cache_write("o", &whole, &vars, &model, &[]), Ok(()));
    let from_o = CacheAccess { base: "o".to_string(), indices: vec![], bracketed: false };
    assert_eq!(ctx.validate_cache_write("o", &from_o, &vars, &model, &[]), Err(ValidationError::NotPersistent));
    let unknown = CacheAccess { base: "zz".to_string(), indices: vec![], bracketed: false };
    assert_eq!(ctx.validate_cache_reset(&unknown, &vars, &model, &[]), Err(ValidationError::UnknownCacheVariable));
    let no_brackets = CacheAccess {
        base: "c".to_string(),
        indices: vec![CacheIndexExpr::Single(CacheIndexValue::Lit(0))],
        bracketed: false,
    };
    assert_eq!(ctx.validate_cache_reset(&no_brackets, &vars, &model, &[]), Err(ValidationError::MissingBrackets));
    let negative = CacheAccess {
        base: "c".to_string(),
        indices: vec![CacheIndexExpr::Single(CacheIndexValue::Lit(-1))],
        bracketed: true,
    };
    assert_eq!(ctx.validate_cache_read(&negative, "o", &vars, &model, &[]), Err(ValidationError::NegativeIndex));
    let by_loop = CacheAccess {
        base: "c".to_string(),
        indices: vec![CacheIndexExpr::Single(CacheIndexValue::Ident("i".to_string()))],
        bracketed: true,
    };
    assert_eq!(ctx.validate_cache_read(&by_loop, "o", &vars, &model, &["i".to_string()]), Ok(()));
    assert_eq!(ctx.validate_cache_read(&by_loop, "o", &vars, &model, &[]), Err(ValidationError::UnknownCacheIndex));
}

#[test]
fn cache_bump_needs_counting_scalar() {
    let n = decl("n", DType::I64, &[], MemoryKind::Persistent);
    let v = decl("v", DType::I64, &["3"], MemoryKind::Persistent);
    let b = decl("b", DType::Bool, &[], MemoryKind::Persistent);
    let (ctx, vars, _model) = setup(&[n, v, b]);
    assert_eq!(ctx.validate_cache_bump("n", &vars), Ok(()));
    assert_eq!(ctx.validate_cache_bump("v", &vars), Err(ValidationError::NotScalar));
    assert_eq!(ctx.validate_cache_bump("b", &vars), Err(ValidationError::IncrementDtypeUnsupported));
}

#[test]
fn branches_loops_and_transfers_are_checked() {
    let c = decl("cond", DType::Bool, &[], MemoryKind::Dynamic);
    let a = decl("a", DType::F32, &["2"], MemoryKind::Dynamic);
    let b = decl("b", DType::F32, &["3"], MemoryKind::Dynamic);
    let k = decl("k", DType::F32, &["2"], MemoryKind::Constant);
    let (ctx, vars, model) = setup(&[c, a, b, k]);
    let blocks = vec!["entry".to_string(), "x".to_string(), "y".to_string()];
    assert_eq!(ctx.validate_branch(&blocks, Some("cond"), "x", Some("y")), Ok(()));
    assert_eq!(ctx.validate_branch(&blocks, Some("cond"), "x", None), Err(ValidationError::BranchNeedsElse));
    assert_eq!(ctx.validate_branch(&blocks, None, "q", None), Err(ValidationError::UnknownBranchTarget));
    assert_eq!(ctx.validate_branch(&blocks, Some("a"), "x", Some("y")), Err(ValidationError::NotScalar));
    assert_eq!(ctx.validate_loop_bounds("0", "10", &model), Ok(()));
    assert_eq!(ctx.validate_loop_bounds("0", "nope", &model), Err(ValidationError::UnknownVariable));
    assert_eq!(ctx.validate_transfer("a", "b", &vars), Err(ValidationError::TransferShapeMismatch));
    assert_eq!(ctx.validate_transfer("a", "k", &vars), Err(ValidationError::TransferIntoImmutable));
    assert_eq!(ctx.validate_transfer("zz", "a", &vars), Err(ValidationError::TransferSourceUnknown));
    assert_eq!(ctx.validate_await_var("k", &vars), Err(ValidationError::AwaitOnConstant));
    assert_eq!(ctx.validate_yield_var("a[1]"), Ok(()));
}

#[test]
fn operator_nodes_are_checked() {
    let x = decl("x", DType::F32, &["2"], MemoryKind::Dynamic);
    let y = decl("y", DType::F32, &["2"], MemoryKind::Dynamic);
    let z = decl("z", DType::F32, &["3"], MemoryKind::Dynamic);
    let p = decl("p", DType::F32, &["2"], MemoryKind::Persistent);
    let (ctx, vars, model) = setup(&[x, y, z, p]);
    let schema = OpSchemaCheck { input_count: 2, output_count: 1, supports_broadcast: false, supports_inplace: false };
    let params = vec![ParamDef { name: "alpha".to_string(), kind: ParamKind::Scalar }];
    let none = OpAttrs { items: vec![] };
    let ins = |a: &str, b: &str| vec![a.to_string(), b.to_string()];
    assert_eq!(ctx.validate_op(&schema, &ins("x", "y"), "y", Some(DType::F32), true, &none, &params, &vars, &model), Err(ValidationError::InplaceNotSupported));
    let out_only = decl("w", DType::F32, &["2"], MemoryKind::Dynamic);
    let (ctx2, vars2, model2) = setup(&[decl("x", DType::F32, &["2"], MemoryKind::Dynamic), decl("y", DType::F32, &["2"], MemoryKind::Dynamic), out_only]);
    assert_eq!(ctx2.validate_op(&schema, &ins("x", "y"), "w", Some(DType::F32), true, &none, &params, &vars2, &model2), Ok(()));
    assert_eq!(ctx.validate_op(&schema, &ins("x", "z"), "y", Some(DType::F32), true, &none, &params, &vars, &model), Err(ValidationError::BroadcastNotAllowed));
    assert_eq!(ctx.validate_op(&schema, &ins("x", "p"), "y", Some(DType::F32), true, &none, &params, &vars, &model), Err(ValidationError::PersistentInput));
    assert_eq!(ctx.validate_op(&schema, &vec!["x".to_string()], "y", Some(DType::F32), true, &none, &params, &vars, &model), Err(ValidationError::WrongInputCount));
    assert_eq!(ctx2.validate_op(&schema, &ins("x", "y"), "w", Some(DType::I32), true, &none, &params, &vars2, &model2), Err(ValidationError::DtypeMismatch));
    assert_eq!(ctx2.validate_op(&schema, &ins("x", "y"), "w", Some(DType::F32), false, &none, &params, &vars2, &model2), Err(ValidationError::UnsupportedTyping));
    let dup = OpAttrs {
        items: vec![
            OpAttr { name: "alpha".to_string(), value: AttrValue::Int(1) },
            OpAttr { name: "alpha".to_string(), value: AttrValue::Int(2) },
        ],
    };
    assert_eq!(ctx2.validate_attrs(&dup, &params, &model2), Err(ValidationError::DuplicateAttr));
    let wrong = OpAttrs { items: vec![OpAttr { name: "alpha".to_string(), value: AttrValue::IntList(vec![1]) }] };
    assert_eq!(ctx2.validate_attrs(&wrong, &params, &model2), Err(ValidationError::AttrTypeMismatch));
    let unknown = OpAttrs { items: vec![OpAttr { name: "beta".to_string(), value: AttrValue::Int(1) }] };
    assert_eq!(ctx2.validate_attrs(&unknown, &params, &model2), Err(ValidationError::UnsupportedAttr));
}

#[test]
fn exec_op_picks_registered_kernel_for_key() {
    let schema = OpSchemaInfo { supports_broadcast: true, supports_inplace: true, has_accumulation_rules: false };
    let a = TensorValue::zeros(DType::F32, &[2, 3]);
    let b = TensorValue::zeros(DType::F32, &[3]);
    let key = OpKey { kind: OpKind::Add, mode: OpMode::Inplace, broadcast: true, inputs: vec![DType::F32, DType::F32], out0: DType::F32, acc_rule: None };
    let other = OpKey { kind: OpKind::Add, mode: OpMode::Normal, broadcast: true, inputs: vec![DType::F32, DType::F32], out0: DType::F32, acc_rule: None };
    let registry = vec![(other, 1usize), (key, 2usize)];
    let attrs = OpAttrs { items: vec![] };
    let (k, id) = exec_op(OpKind::Add, &schema, &[a.clone(), b.clone()], DType::F32, true, &attrs, true, &registry).unwrap();
    assert_eq!(id, 2);
    assert!(k.broadcast);
    let (_, id) = exec_op(OpKind::Add, &schema, &[a.clone(), b.clone()], DType::F32, true, &attrs, false, &registry).unwrap();
    assert_eq!(id, 1);
    assert_eq!(exec_op(OpKind::Add, &schema, &[a.clone(), b], DType::F32, false, &attrs, false, &registry).err(), Some(ExecOpError::UnsupportedTyping));
    assert_eq!(exec_op(OpKind::Add, &schema, &[a.clone(), a], DType::F32, true, &attrs, false, &registry).err(), Some(ExecOpError::NoKernel));
}

#[test]
fn padded_strings_decode_utf8() {
    let mut good = Vec::new();
    good.extend_from_slice(&4u32.to_le_bytes());
    good.extend_from_slice("hé!".as_bytes());
    let mut cursor = 0usize;
    assert_eq!(read_string(&good, &mut cursor), Ok("hé!".to_string()));
    assert_eq!(cursor, 8);
    let mut bad = Vec::new();
    bad.extend_from_slice(&2u32.to_le_bytes());
    bad.extend_from_slice(&[0xff, 0xfe, 0, 0]);
    let mut cursor = 0usize;
    assert_eq!(read_string(&bad, &mut cursor), Err(LoadError::InvalidUtf8));
}

#[test]
fn trace_timing_splits_nanoseconds() {
    let t = format_trace_timing(12_345_678);
    assert_eq!((t.ms, t.us, t.ns), (12, 345, 678));
    assert_eq!(t.micros, "12ms 345us 678ns");
    let z = format_trace_timing(0);
    assert_eq!(z.micros, "0ms 0us 0ns");
}
