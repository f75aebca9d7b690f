use openinfer::dtype::DType;
use openinfer::model_loader::{ModelLoader, VT_I32, VT_STRING};
use openinfer::oinf::LoadError;

fn u32le(v: u32) -> Vec<u8> {
    v.to_le_bytes().to_vec()
}

fn u64le(v: u64) -> Vec<u8> {
    v.to_le_bytes().to_vec()
}

fn pad8(v: &mut Vec<u8>, from: usize) {
    while (v.len() - from) % 8 != 0 {
        v.push(0);
    }
}

fn string(v: &mut Vec<u8>, s: &str) {
    let start = v.len();
    v.extend(u32le(s.len() as u32));
    v.extend_from_slice(s.as_bytes());
    pad8(v, start);
}

/// A model with size `B = 2`, a string metadata entry `title`, and an
/// `i32` tensor `w` of dims `[B]` holding `[5, -1]`.
fn model_bytes() -> Vec<u8> {
    let mut sizes = Vec::new();
    string(&mut sizes, "B");
    sizes.extend(u64le(2));
    let off_sizes = 72usize;
    let off_meta = off_sizes + sizes.len();
    // metadata: one entry; its value goes into the data section
    let mut meta = Vec::new();
    string(&mut meta, "title");
    let meta_entry_fixed = meta.len();
    meta.extend(u32le(VT_STRING));
    meta.extend(u32le(0));
    meta.extend(u64le(8)); // nbytes, patched below
    meta.extend(u64le(0)); // offset, patched below
    let off_tensors = off_meta + meta.len();
    let mut tens = Vec::new();
    string(&mut tens, "w");
    tens.extend(u32le(VT_I32));
    tens.extend(u32le(1)); // ndim
    tens.extend(u32le(1)); // flags: has data
    tens.extend(u64le(2));
    let data_fields = tens.len();
    tens.extend(u64le(8)); // data bytes
    tens.extend(u64le(0)); // data offset, patched below
    tens.extend(u64le(0));
    tens.extend(u64le(0));
    let mut off_data = off_tensors + tens.len();
    while off_data % 8 != 0 {
        off_data += 1;
    }
    let mut data = Vec::new();
    data.extend(5i32.to_le_bytes());
    data.extend((-1i32).to_le_bytes());
    let string_off = off_data + data.len();
    let mut sval = Vec::new();
    sval.extend(u32le(2));
    sval.extend_from_slice(b"hi");
    pad8(&mut sval, 0);
    data.extend(&sval);
    let file_size = off_data + data.len();
    // patch offsets
    let nb = sval.len() as u64;
    meta[meta_entry_fixed + 8..meta_entry_fixed + 16].copy_from_slice(&u64le(nb));
    meta[meta_entry_fixed + 16..meta_entry_fixed + 24].copy_from_slice(&u64le(string_off as u64));
    tens[data_fields + 8..data_fields + 16].copy_from_slice(&u64le(off_data as u64));
    let mut file = Vec::new();
    file.extend_from_slice(b"OINF\0");
    file.extend(u32le(2));
    file.extend(u32le(0));
    file.extend(u32le(1));
    file.extend(u32le(1));
    file.extend(u32le(1));
    file.extend(u32le(0));
    file.extend(u64le(off_sizes as u64));
    file.extend(u64le(off_meta as u64));
    file.extend(u64le(off_tensors as u64));
    file.extend(u64le(off_data as u64));
    file.extend(u64le(file_size as u64));
    while file.len() < 72 {
        file.push(0);
    }
    file.extend(sizes);
    file.extend(meta);
    file.extend(tens);
    while file.len() < off_data {
        file.push(0);
    }
    file.extend(data);
    file
}

#[test]
fn model_sections_are_read() {
    let m = ModelLoader::parse(model_bytes()).unwrap();
    assert_eq!(m.size_of("B"), Ok(2));
    assert_eq!(m.size_of("C"), Err(LoadError::UnknownSize));
    assert_eq!(m.resolve_dim_value("B*3"), Ok(6));
    assert_eq!(m.resolve_shape(&["B".to_string(), "4".to_string()]), Ok(vec![2, 4]));
    assert!(m.has_metadata_string("title"));
    assert_eq!(m.load_metadata_string("title"), Ok(Some("hi".to_string())));
    assert_eq!(m.load_metadata_string("nope"), Ok(None));
    let w = m.load_tensor("w").unwrap();
    assert_eq!(w.dtype, DType::I32);
    assert_eq!(w.shape, vec![2]);
    assert_eq!(w.data, vec![5, 0xFFFF_FFFF]);
    assert_eq!(m.load_tensor("x").err(), Some(LoadError::UnknownVariable));
}

#[test]
fn malformed_headers_are_refused() {
    let good = model_bytes();
    assert_eq!(ModelLoader::parse(good[..40].to_vec()).err(), Some(LoadError::FileTooSmall));
    let mut bad_magic = good.clone();
    bad_magic[0] = b'X';
    assert_eq!(ModelLoader::parse(bad_magic).err(), Some(LoadError::BadMagic));
    let mut version = good.clone();
    version[5] = 3;
    assert_eq!(ModelLoader::parse(version).err(), Some(LoadError::UnsupportedVersion(3)));
    let mut longer = good.clone();
    longer.push(0);
    assert_eq!(ModelLoader::parse(longer).err(), Some(LoadError::FileSizeMismatch));
}

use openinfer::cache::CacheError;
use openinfer::graph::{CacheAccess, MemoryKind, ScalarValue, VarDecl};
use openinfer::state::{RuntimeState, StateError};
use openinfer::tensor::TensorValue;

fn decl(name: &str, dtype: DType, dims: &[&str], kind: MemoryKind, init: Option<u64>) -> VarDecl {
    VarDecl {
        name: name.to_string(),
        dtype,
        dims: dims.iter().map(|d| d.to_string()).collect(),
        kind,
        init: init.map(|bits| ScalarValue { bits }),
        fixed: Vec::new(),
        table_indices: Vec::new(),
        auto_dim: Vec::new(),
        table: false,
        ref_name: None,
    }
}

fn state() -> RuntimeState {
    let model = ModelLoader::parse(model_bytes()).unwrap();
    let decls = vec![
        decl("w", DType::I32, &["B"], MemoryKind::Volatile, None),
        decl("x", DType::U8, &["B"], MemoryKind::Volatile, Some(7)),
        decl("o", DType::U32, &["B", "2"], MemoryKind::Volatile, None),
        decl("p", DType::I64, &[], MemoryKind::Persistent, None),
        decl("c", DType::U8, &["B"], MemoryKind::Persistent, None),
    ];
    RuntimeState::new(decls, model, false, false).unwrap()
}

fn cache_access(base: &str) -> CacheAccess {
    CacheAccess { base: base.to_string(), indices: Vec::new(), bracketed: false }
}

#[test]
fn state_records_declared_shapes() {
    let s = state();
    assert_eq!(s.var_shapes.get("o"), Some(&vec![2, 2]));
    assert_eq!(s.var_dtypes.get("x"), Some(&DType::U8));
    assert!(s.slots.is_empty());
    let model = ModelLoader::parse(model_bytes()).unwrap();
    let bad = vec![decl("z", DType::U8, &["C"], MemoryKind::Volatile, None)];
    assert_eq!(RuntimeState::new(bad, model, false, false).err(), Some(StateError::Load(LoadError::UnknownSize)));
}

#[test]
fn state_reads_model_initializer_and_persistent_values() {
    let mut s = state();
    let w = s.get_tensor("w").unwrap();
    assert_eq!(w.data, vec![5, 0xFFFF_FFFF]);
    assert!(s.locals.contains_key("w"));
    let x = s.get_tensor("x").unwrap();
    assert_eq!((x.shape.clone(), x.data.clone()), (vec![2], vec![7, 7]));
    let p = s.get_tensor("p").unwrap();
    assert_eq!((p.shape.clone(), p.data.clone()), (Vec::<usize>::new(), vec![0]));
    assert!(s.cache.has_persistent("p"));
    assert!(!s.locals.contains_key("p"));
    assert_eq!(s.get_tensor("nope").err(), Some(StateError::UnknownVariable));
    let indexed = s.get_tensor("x[0]").unwrap();
    assert_eq!(indexed.data, vec![7, 7]);
}

#[test]
fn reading_twice_gives_the_same_value() {
    let mut s = state();
    for name in ["w", "x", "o", "p", "c", "x[1]"] {
        let first = s.get_tensor(name).unwrap();
        let second = s.get_tensor(name).unwrap();
        assert_eq!((first.dtype, first.shape, first.data), (second.dtype, second.shape, second.data));
    }
}

#[test]
fn local_then_handed_in_values_are_read_back() {
    let mut s = state();
    let v = TensorValue::new(DType::I32, vec![2], vec![1, 2]).unwrap();
    s.set_local("w", v.clone());
    assert_eq!(s.get_tensor("w").unwrap().data, vec![1, 2]);
    let d = TensorValue::new(DType::I32, vec![2], vec![9, 9]).unwrap();
    assert_eq!(s.insert_dynamic("w", d), Ok(()));
    assert_eq!(s.get_tensor("w").unwrap().data, vec![9, 9]);
    assert_eq!(s.insert_dynamic("w[1]", v.clone()), Ok(()));
    assert_eq!(s.insert_dynamic("zzz", v), Err(StateError::UnknownVariable));
    assert!(s.dynamic_shared("zzz").is_none());
}

#[test]
fn transfer_shares_one_slot() {
    let mut s = state();
    s.get_tensor("x").unwrap();
    assert_eq!(s.transfer_var("x", "y"), Ok(()));
    assert_eq!(s.locals.get("y"), s.locals.get("x"));
    assert!(s.was_mutated("y"));
    assert!(!s.was_mutated("x"));
    assert_eq!(s.get_tensor("y").unwrap().data, vec![7, 7]);
    assert_eq!(s.transfer_var("missing", "y"), Err(StateError::UnknownVariable));
}

#[test]
fn assignment_and_outputs_get_values() {
    let mut s = state();
    assert_eq!(s.register_assign("t", DType::U16, &["B".to_string(), "3".to_string()]), Ok(()));
    assert_eq!(s.var_shapes.get("t"), Some(&vec![2, 3]));
    assert!(s.temps.contains("t"));
    assert_eq!(s.get_tensor("t").unwrap().data, vec![0; 6]);
    assert_eq!(s.register_assign("u", DType::U16, &["Q".to_string()]), Err(StateError::Load(LoadError::UnknownSize)));
    assert_eq!(s.ensure_output("q"), Err(StateError::UnknownOutputVariable));
    assert_eq!(s.ensure_output("o"), Ok(()));
    let o = s.get_tensor("o").unwrap();
    assert_eq!((o.shape.clone(), o.data.clone()), (vec![2, 2], vec![0; 4]));
    assert_eq!(s.ensure_output("w"), Ok(()));
    assert!(!s.locals.contains_key("w"));
}

#[test]
fn loop_indices_are_set_and_cleared() {
    let mut s = state();
    s.set_loop_var("i", 3);
    assert_eq!(s.loop_vars.get("i"), Some(&3));
    s.clear_loop_var("i");
    assert!(!s.loop_vars.contains_key("i"));
}

#[test]
fn cache_counters_and_values_go_through_the_store() {
    let mut s = state();
    assert_eq!(s.cache_bump("p", 5, false), Ok(()));
    assert_eq!(s.cache_bump("p", 2, true), Ok(()));
    assert_eq!(s.get_tensor("p").unwrap().data, vec![3]);
    assert_eq!(s.cache_bump("nope", 1, false), Err(StateError::Cache(CacheError::UnknownVariable)));
    assert_eq!(s.cache_bump("x", 1, false), Err(StateError::Cache(CacheError::NotPersistent)));
    assert_eq!(s.cache_write("x", &cache_access("c")), Ok(()));
    assert_eq!(s.cache_read(&cache_access("c"), "out"), Ok(()));
    assert_eq!(s.get_tensor("out").unwrap().data, vec![7, 7]);
    assert_eq!(s.cache_read(&cache_access("zz"), "out"), Err(StateError::UnknownCacheVariable));
    assert_eq!(s.cache_reset(&cache_access("c")), Ok(()));
    assert_eq!(s.cache_read(&cache_access("c"), "out2"), Ok(()));
    assert_eq!(s.get_tensor("out2").unwrap().data, vec![0, 0]);
}

#[test]
fn yield_hands_values_in_and_await_makes_them_local() {
    let mut s = state();
    let snap = s.handle_yield(&["x".to_string(), "w".to_string()]).unwrap();
    assert_eq!(snap.vars.len(), 2);
    assert_eq!(snap.vars[0].0, "x");
    assert_eq!(snap.vars[0].1.data, vec![7, 7]);
    assert_eq!(snap.vars[1].1.data, vec![5, 0xFFFF_FFFF]);
    let xs = s.dynamic_shared("x");
    assert!(xs.is_some());
    assert_eq!(s.handle_await(&["x".to_string()]), Ok(()));
    assert_eq!(s.locals.get("x").copied(), xs);
    assert!(s.handle_yield(&["undeclared".to_string()]).is_err());
}

use openinfer::control_flow::{eval_branch_target, eval_loop_bounds, BranchError, FlowError};
use openinfer::runtime::ValueError;

#[test]
fn branch_reads_its_condition_variable() {
    let mut s = state();
    assert_eq!(eval_branch_target(&mut s, None, "then", None), Ok(Some("then".to_string())));
    let t = TensorValue::new(DType::Bool, vec![], vec![1]).unwrap();
    s.insert_dynamic("p", t).unwrap();
    assert_eq!(eval_branch_target(&mut s, Some("p"), "a", Some("b")), Ok(Some("a".to_string())));
    let f = TensorValue::new(DType::Bool, vec![], vec![0]).unwrap();
    s.insert_dynamic("p", f).unwrap();
    assert_eq!(eval_branch_target(&mut s, Some("p"), "a", Some("b")), Ok(Some("b".to_string())));
    assert_eq!(eval_branch_target(&mut s, Some("p"), "a", None), Err(FlowError::Branch(BranchError::MissingElse)));
    assert_eq!(eval_branch_target(&mut s, Some("ghost"), "a", None), Err(FlowError::State(StateError::UnknownVariable)));
}

#[test]
fn loop_bounds_take_literals_sizes_and_scalars() {
    let mut s = state();
    assert_eq!(eval_loop_bounds(&mut s, "0", "B"), Ok((0, 2)));
    assert_eq!(eval_loop_bounds(&mut s, " -3 ", "4"), Ok((-3, 4)));
    let n = TensorValue::new(DType::I64, vec![], vec![9]).unwrap();
    s.insert_dynamic("p", n).unwrap();
    assert_eq!(eval_loop_bounds(&mut s, "1", "p"), Ok((1, 9)));
    assert_eq!(eval_loop_bounds(&mut s, "x", "p"), Err(FlowError::Value(ValueError::NotScalar)));
    assert_eq!(eval_loop_bounds(&mut s, "1", "nope"), Err(FlowError::State(StateError::UnknownVariable)));
}

use openinfer::engine::{build_event, handle_node, NodeError, NodeStep};
use openinfer::runtime::format_trace_timing;
use openinfer::executor::{ExecError, Executor, StepOutcome};
use openinfer::frames::{BlockNodes, NodeEffect};
use openinfer::graph::{Node, NodeKind};
use openinfer::runtime::TraceEventKind;
use openinfer::vk_common::OpAttrs;
use openinfer::vk_dispatch::OpKind;

fn node(index: usize, kind: NodeKind) -> Node {
    Node { index, uuid: index as u128, kind }
}

fn run_to_end(ex: &mut Executor) -> Vec<StepOutcome> {
    let mut out = Vec::new();
    for _ in 0..200 {
        let o = ex.step().unwrap();
        if let StepOutcome::Finished = o {
            return out;
        }
        out.push(o);
    }
    panic!("executor did not finish");
}

#[test]
fn nodes_act_on_the_state() {
    let mut s = state();
    let assign = node(0, NodeKind::Assign { name: "t".to_string(), dtype: DType::U8, dims: vec!["B".to_string()] });
    match handle_node(&mut s, "main", &assign) {
        Ok((NodeStep::Effect(NodeEffect::Continue), ev)) if ev.kind == TraceEventKind::Assign => {}
        other => panic!("{:?}", other),
    }
    assert_eq!(s.get_tensor("t").unwrap().data, vec![0, 0]);
    let op = node(1, NodeKind::Op {
        op: OpKind::Add,
        attrs: OpAttrs { items: Vec::new() },
        inputs: vec!["x".to_string(), "x".to_string()],
        output: "o".to_string(),
    });
    match handle_node(&mut s, "main", &op) {
        Ok((NodeStep::RunOp, ev)) if ev.kind == TraceEventKind::OpExecute => {}
        other => panic!("{:?}", other),
    }
    assert!(s.locals.contains_key("o"));
    let dec = node(2, NodeKind::CacheDecrement { target: "p".to_string(), amount: i64::MIN });
    assert_eq!(handle_node(&mut s, "main", &dec).err(), Some(NodeError::DecrementOutOfRange));
    let lp = node(3, NodeKind::Loop {
        name: "l".to_string(),
        index: "i".to_string(),
        start: "1".to_string(),
        end: "B".to_string(),
        body: vec![7, 8],
    });
    match handle_node(&mut s, "main", &lp) {
        Ok((NodeStep::Effect(NodeEffect::PushLoop(f)), ev)) if ev.kind == TraceEventKind::Loop => {
            assert_eq!((f.index.as_str(), f.current, f.end, f.body), ("i", 1, 2, vec![7, 8]));
        }
        other => panic!("{:?}", other),
    }
    let br = node(4, NodeKind::Branch { cond: None, then_block: "next".to_string(), else_block: None });
    match handle_node(&mut s, "main", &br) {
        Ok((_, ev)) => {
            assert_eq!((ev.block_name.as_str(), ev.node_index, ev.node_uuid), ("main", 4, 4));
            assert_eq!((ev.timing.micros.as_str(), ev.timing.ms, ev.timing.us, ev.timing.ns), ("0ms 0us 0ns", 0, 0, 0));
        }
        other => panic!("{:?}", other),
    }
    let ret = node(5, NodeKind::Return);
    match handle_node(&mut s, "side", &ret) {
        Ok((NodeStep::Effect(NodeEffect::Return), ev)) => {
            assert_eq!(ev.kind, TraceEventKind::Return);
            assert_eq!((ev.block_name.as_str(), ev.node_index), ("side", 5));
        }
        other => panic!("{:?}", other),
    }
    let timed = build_event("main", &op, TraceEventKind::OpExecute, Some(format_trace_timing(2_003_004)));
    assert_eq!((timed.timing.micros.as_str(), timed.node_index), ("2ms 3us 4ns", 1));
    match handle_node(&mut s, "main", &br) {
        Ok((NodeStep::Effect(NodeEffect::PushBlock(b)), ev)) if ev.kind == TraceEventKind::Branch => assert_eq!(b, "next"),
        other => panic!("{:?}", other),
    }
}

#[test]
fn executor_runs_loops_and_branches() {
    let nodes = vec![
        node(0, NodeKind::Loop {
            name: "l".to_string(),
            index: "i".to_string(),
            start: "0".to_string(),
            end: "3".to_string(),
            body: vec![1],
        }),
        node(1, NodeKind::CacheIncrement { target: "p".to_string(), amount: 2 }),
        node(2, NodeKind::Branch { cond: None, then_block: "tail".to_string(), else_block: None }),
        node(3, NodeKind::CacheDecrement { target: "p".to_string(), amount: 1 }),
        node(4, NodeKind::Return),
        node(5, NodeKind::CacheIncrement { target: "p".to_string(), amount: 100 }),
    ];
    let blocks = vec![
        BlockNodes { name: "tail".to_string(), nodes: vec![3, 4, 5] },
        BlockNodes { name: "entry".to_string(), nodes: vec![0, 2] },
    ];
    let mut ex = Executor::new(state(), nodes, blocks).unwrap();
    assert_eq!(ex.entry_block.as_deref(), Some("entry"));
    let steps = run_to_end(&mut ex);
    let ran: Vec<usize> = steps
        .iter()
        .filter_map(|o| match o {
            StepOutcome::Ran { node, .. } => Some(*node),
            _ => None,
        })
        .collect();
    assert_eq!(ran, vec![0, 1, 1, 1, 2, 3, 4]);
    assert_eq!(ex.fetch_raw("p").unwrap().data, vec![5]);
    assert!(!ex.state.loop_vars.contains_key("i"));
}

#[test]
fn executor_hands_operators_and_yields_to_the_caller() {
    let nodes = vec![
        node(0, NodeKind::Op {
            op: OpKind::Add,
            attrs: OpAttrs { items: Vec::new() },
            inputs: vec!["x".to_string(), "x".to_string()],
            output: "x".to_string(),
        }),
        node(1, NodeKind::Yield { vars: vec!["x".to_string()] }),
        node(2, NodeKind::Await { vars: vec!["x".to_string()] }),
    ];
    let blocks = vec![BlockNodes { name: "main".to_string(), nodes: vec![0, 1, 2] }];
    let mut ex = Executor::new(state(), nodes, blocks).unwrap();
    assert_eq!(ex.entry_block.as_deref(), Some("main"));
    match ex.step().unwrap() {
        StepOutcome::RunOp { node: 0, kind: TraceEventKind::OpExecute } => {}
        other => panic!("{:?}", other),
    }
    match ex.step().unwrap() {
        StepOutcome::Yielded { node: 1, snapshot, .. } => assert_eq!(snapshot.vars[0].1.data, vec![7, 7]),
        other => panic!("{:?}", other),
    }
    match ex.step().unwrap() {
        StepOutcome::Awaited { node: 2, vars, .. } => assert_eq!(vars, vec!["x".to_string()]),
        other => panic!("{:?}", other),
    }
    assert!(matches!(ex.step(), Ok(StepOutcome::Finished)));
    assert!(matches!(Executor::new(state(), Vec::new(), Vec::new()), Err(ExecError::NoBlocks)));
    assert!(matches!(
        Executor::for_block(state(), Vec::new(), vec![BlockNodes { name: "a".to_string(), nodes: vec![] }], "b"),
        Err(ExecError::UnknownBlock)
    ));
    let mut solo = Executor::for_block(
        state(),
        vec![node(0, NodeKind::Yield { vars: vec!["x".to_string()] }), node(1, NodeKind::Return)],
        vec![BlockNodes { name: "a".to_string(), nodes: vec![0, 1] }],
        "a",
    )
    .unwrap();
    match solo.step().unwrap() {
        StepOutcome::Ran { node: 0, kind: TraceEventKind::Yield } => {}
        other => panic!("{:?}", other),
    }
    assert!(matches!(solo.step(), Ok(StepOutcome::Finished)));
    let mut bad = Executor::new(state(), Vec::new(), vec![BlockNodes { name: "entry".to_string(), nodes: vec![9] }]).unwrap();
    assert!(matches!(bad.step(), Err(ExecError::UnknownNode)));
}

use openinfer::runtime::{ConsumerResult, MergeError};
use openinfer::scheduler::{apply_consumer_results, collect_yields, ApplyError};

fn u8s(v: &[u64]) -> TensorValue {
    TensorValue::new(DType::U8, vec![v.len()], v.to_vec()).unwrap()
}

#[test]
fn consumers_hand_back_their_values() {
    let mut s = state();
    s.insert_dynamic("x", u8s(&[1, 2])).unwrap();
    s.mark_mutated("x");
    let r = collect_yields(&s, "b", &["x".to_string(), "w".to_string(), "x".to_string()]);
    assert_eq!(r.block_name, "b");
    assert_eq!(r.yielded.len(), 1);
    assert_eq!(r.yielded[0].0, "x");
    assert_eq!(r.yielded[0].1.data, vec![1, 2]);
    assert_eq!(r.mutated, vec!["x".to_string()]);
}

#[test]
fn changed_values_win_at_an_await() {
    let mut s = state();
    let a = ConsumerResult {
        block_name: "a".to_string(),
        yielded: vec![("x".to_string(), u8s(&[1, 1])), ("w".to_string(), u8s(&[4, 4]))],
        mutated: vec![],
    };
    let b = ConsumerResult {
        block_name: "b".to_string(),
        yielded: vec![("x".to_string(), u8s(&[2, 2]))],
        mutated: vec!["x".to_string()],
    };
    assert_eq!(apply_consumer_results(&mut s, &[a.clone(), b.clone()]), Ok(()));
    assert_eq!(s.get_tensor("x").unwrap().data, vec![2, 2]);
    assert_eq!(s.get_tensor("w").unwrap().data, vec![4, 4]);
    let c = ConsumerResult { block_name: "c".to_string(), yielded: b.yielded.clone(), mutated: b.mutated.clone() };
    assert_eq!(
        apply_consumer_results(&mut s, &[b.clone(), c]),
        Err(ApplyError::Merge(MergeError::MultipleMutators))
    );
    let d = ConsumerResult {
        block_name: "d".to_string(),
        yielded: vec![("nobody".to_string(), u8s(&[0]))],
        mutated: vec![],
    };
    assert_eq!(apply_consumer_results(&mut s, &[d]), Err(ApplyError::State(StateError::UnknownVariable)));
}

use openinfer::op_attrs::{resolve_op_attrs, AttrError};
use openinfer::runtime::ScalarAttrError;
use openinfer::vk_common::{AttrValue, OpAttr};

#[test]
fn attributes_naming_variables_are_resolved() {
    let mut s = state();
    let attrs = OpAttrs {
        items: vec![
            OpAttr { name: "label".to_string(), value: AttrValue::Var("title".to_string()) },
            OpAttr { name: "count".to_string(), value: AttrValue::Var("p".to_string()) },
            OpAttr { name: "axes".to_string(), value: AttrValue::IntList(vec![0, -1]) },
        ],
    };
    let out = resolve_op_attrs(&mut s, &attrs).unwrap();
    assert_eq!(out.items.len(), 3);
    assert_eq!(out.items[0].name, "label");
    assert!(matches!(&out.items[0].value, AttrValue::Str(t) if t == "hi"));
    assert!(matches!(out.items[1].value, AttrValue::Int(0)));
    assert!(matches!(&out.items[2].value, AttrValue::IntList(v) if v == &vec![0, -1]));
    let bad = OpAttrs { items: vec![OpAttr { name: "v".to_string(), value: AttrValue::Var("x".to_string()) }] };
    assert_eq!(resolve_op_attrs(&mut s, &bad).err(), Some(AttrError::Scalar(ScalarAttrError::NotScalar)));
    let missing = OpAttrs { items: vec![OpAttr { name: "v".to_string(), value: AttrValue::Var("q".to_string()) }] };
    assert_eq!(resolve_op_attrs(&mut s, &missing).err(), Some(AttrError::State(StateError::UnknownVariable)));
}

use openinfer::executor::branch_targets;

#[test]
fn blocks_beside_entry_are_those_no_branch_reaches() {
    let nodes = vec![
        node(0, NodeKind::Branch { cond: Some("p".to_string()), then_block: "t".to_string(), else_block: Some("e".to_string()) }),
        node(1, NodeKind::Return),
    ];
    let blocks = vec![
        BlockNodes { name: "entry".to_string(), nodes: vec![0, 1] },
        BlockNodes { name: "z".to_string(), nodes: vec![1] },
        BlockNodes { name: "t".to_string(), nodes: vec![1] },
        BlockNodes { name: "e".to_string(), nodes: vec![1] },
        BlockNodes { name: "a".to_string(), nodes: vec![1] },
    ];
    assert_eq!(branch_targets(&nodes, &blocks), vec!["t".to_string(), "e".to_string()]);
    let ex = Executor::new(state(), nodes.clone(), blocks.clone()).unwrap();
    assert_eq!(ex.async_blocks(), vec!["a".to_string(), "z".to_string()]);
    let solo = Executor::for_block(state(), nodes, blocks, "z").unwrap();
    assert!(solo.async_blocks().is_empty());
}

#[test]
fn declared_shapes_are_found_by_indexed_names() {
    let mut s = state();
    assert_eq!(s.lookup_decl_shape("o"), Some((DType::U32, vec![2, 2])));
    assert_eq!(s.lookup_decl_shape("o[1]"), Some((DType::U32, vec![2, 2])));
    assert_eq!(s.lookup_decl_shape("nope[1]"), None);
    s.register_assign("t", DType::U16, &["3".to_string()]).unwrap();
    assert_eq!(s.lookup_decl_shape("t"), Some((DType::U16, vec![3])));
}

use openinfer::graph_check::{validate_graph, OpRule, OpTyping};
use openinfer::runtime::ValidationError;
use openinfer::validation::OpSchemaCheck;

fn add_rule(input: DType) -> OpRule {
    OpRule {
        op: OpKind::Add,
        schema: OpSchemaCheck { input_count: 2, output_count: 1, supports_broadcast: false, supports_inplace: true },
        params: Vec::new(),
        typings: vec![OpTyping { inputs: vec![input, input], output: input }],
    }
}

fn graph_decls() -> Vec<VarDecl> {
    vec![
        decl("x", DType::U8, &["B"], MemoryKind::Volatile, None),
        decl("y", DType::U8, &["B"], MemoryKind::Volatile, None),
    ]
}

fn graph_nodes(body: Vec<usize>) -> Vec<Node> {
    vec![
        node(0, NodeKind::Op {
            op: OpKind::Add,
            attrs: OpAttrs { items: Vec::new() },
            inputs: vec!["x".to_string(), "x".to_string()],
            output: "y".to_string(),
        }),
        node(1, NodeKind::Loop {
            name: "l".to_string(),
            index: "i".to_string(),
            start: "0".to_string(),
            end: "B".to_string(),
            body,
        }),
        node(2, NodeKind::Assign { name: "t".to_string(), dtype: DType::U8, dims: vec!["B".to_string()] }),
        node(3, NodeKind::Return),
        node(4, NodeKind::Yield { vars: vec!["x".to_string()] }),
        node(5, NodeKind::Branch { cond: None, then_block: "nowhere".to_string(), else_block: None }),
    ]
}

fn entry_block(nodes: Vec<usize>) -> BlockNodes {
    BlockNodes { name: "entry".to_string(), nodes }
}

#[test]
fn whole_graph_is_validated() {
    let model = ModelLoader::parse(model_bytes()).unwrap();
    let blocks = vec![entry_block(vec![0, 1, 3])];
    let nodes = graph_nodes(vec![2]);
    assert_eq!(validate_graph(&model, graph_decls(), &blocks, &nodes, &[add_rule(DType::U8)]), Ok(()));
    assert_eq!(validate_graph(&model, graph_decls(), &[], &nodes, &[add_rule(DType::U8)]), Err(ValidationError::NoBlocks));
    assert_eq!(validate_graph(&model, graph_decls(), &blocks, &nodes, &[]), Err(ValidationError::UnsupportedOp));
    assert_eq!(
        validate_graph(&model, graph_decls(), &blocks, &nodes, &[add_rule(DType::I32)]),
        Err(ValidationError::OutputTypeUnknown)
    );
}

#[test]
fn graph_validation_reports_the_first_failure() {
    let model = ModelLoader::parse(model_bytes()).unwrap();
    let rules = [add_rule(DType::U8)];
    let nodes = graph_nodes(vec![0]);
    let blocks = vec![entry_block(vec![1])];
    assert_eq!(validate_graph(&model, graph_decls(), &blocks, &nodes, &rules), Err(ValidationError::MalformedNodeTable));
    let nodes = graph_nodes(vec![2]);
    let mut twice = graph_decls();
    twice.push(decl("x", DType::U8, &["B"], MemoryKind::Volatile, None));
    assert_eq!(
        validate_graph(&model, twice, &[entry_block(vec![0])], &nodes, &rules),
        Err(ValidationError::DuplicateDeclaration)
    );
    let side = BlockNodes { name: "side".to_string(), nodes: vec![4, 3] };
    assert_eq!(
        validate_graph(&model, graph_decls(), &[entry_block(vec![3]), side], &nodes, &rules),
        Err(ValidationError::YieldNotFinal)
    );
    assert_eq!(
        validate_graph(&model, graph_decls(), &[entry_block(vec![5])], &nodes, &rules),
        Err(ValidationError::UnknownBranchTarget)
    );
    assert_eq!(
        validate_graph(&model, graph_decls(), &[entry_block(vec![0, 1, 1])], &nodes, &rules),
        Err(ValidationError::DuplicateTemporary)
    );
}
