use openinfer::cache::CacheError;
use openinfer::cache_utils::{expand_tensor_value, increment_scalar, scalar_to_i64};
use openinfer::dtype::DType;
use openinfer::runtime::{
    base_name, merge_consumer_results, parse_i64_literal, resolve_scalar_attr, tensor_to_bool, tensor_to_i64,
    validate_yield_rules, Block, ConsumerResult, Device, MergeError, ScalarAttrError, TraceEventKind, ValidationError,
    ValueError,
};
use openinfer::tensor::TensorValue;
use openinfer::vk_common::{AttrValue, OpAttrs};
use openinfer::vk_desc::{dispatch_groups, push_constants_fit, VulkanOpSpec};
use openinfer::vk_desc::{
    build_tensor_desc, default_accum_dtype, dtype_code, encode_acc_rule, return_staging, take_last_dispatch_duration,
    take_staging, tensor_byte_len, StagingBuffers, VulkanCaps, MAX_DIMS,
};
use openinfer::vk_dispatch::{
    broadcast_shape, is_allowed_cast, lookup_kernel, relu_normal_dispatch, DispatchEnv, DispatchPlan, OpKey, OpKind,
    OpMode,
};
use openinfer::vk_common::VkError;

fn t(dtype: DType, shape: Vec<usize>, data: Vec<u64>) -> TensorValue {
    TensorValue::new(dtype, shape, data).unwrap()
}

#[test]
fn literals_and_names() {
    assert_eq!(parse_i64_literal("  -42 "), Some(-42));
    assert_eq!(parse_i64_literal("4x"), None);
    assert_eq!(base_name("cache[3]"), "cache");
    assert_eq!(base_name("plain"), "plain");
}

#[test]
fn scalars_for_control_flow() {
    assert_eq!(tensor_to_i64(&t(DType::I8, vec![1], vec![0xFF])), Ok(-1));
    assert_eq!(tensor_to_i64(&t(DType::U32, vec![], vec![7])), Ok(7));
    assert_eq!(tensor_to_i64(&t(DType::I32, vec![2], vec![1, 2])), Err(ValueError::NotScalar));
    assert_eq!(tensor_to_i64(&t(DType::F32, vec![1], vec![0x3F80_0000])), Ok(1));
    let f32s = [-2.7f32, 3.9, 0.4, -0.99, 1e20, -1e20, f32::NAN, f32::INFINITY, f32::NEG_INFINITY, 123456.0];
    for x in f32s {
        assert_eq!(tensor_to_i64(&t(DType::F32, vec![1], vec![x.to_bits() as u64])), Ok(x as i64));
    }
    let f64s = [-2.7f64, 9.99e15, -9.2e18, 9.3e18, f64::NAN, 0.0, -0.0, 5e-300];
    for x in f64s {
        assert_eq!(tensor_to_i64(&t(DType::F64, vec![1], vec![x.to_bits()])), Ok(x as i64));
    }
    // half precision -2.5 and 65504, bfloat16 -3.0
    assert_eq!(tensor_to_i64(&t(DType::F16, vec![1], vec![0xC100])), Ok(-2));
    assert_eq!(tensor_to_i64(&t(DType::F16, vec![1], vec![0x7BFF])), Ok(65504));
    assert_eq!(tensor_to_i64(&t(DType::BF16, vec![1], vec![0xC040])), Ok(-3));
    assert_eq!(tensor_to_i64(&t(DType::F8, vec![1], vec![0x38])), Err(ValueError::FloatNeedsHost));
    assert_eq!(tensor_to_bool(&t(DType::U8, vec![1], vec![3])), Ok(true));
    assert_eq!(tensor_to_bool(&t(DType::Bool, vec![1], vec![0])), Ok(false));
}

#[test]
fn scalar_attributes_from_tensors() {
    assert!(matches!(resolve_scalar_attr(&t(DType::I16, vec![1], vec![0xFFFE])), Ok(AttrValue::Int(-2))));
    assert!(matches!(resolve_scalar_attr(&t(DType::F32, vec![1], vec![0x4000_0000])), Ok(AttrValue::Float(0x4000_0000))));
    assert!(matches!(resolve_scalar_attr(&t(DType::I4, vec![1], vec![0x0F])), Ok(AttrValue::Int(-1))));
    assert!(matches!(resolve_scalar_attr(&t(DType::U2, vec![1], vec![0x07])), Ok(AttrValue::UInt(3))));
    assert!(matches!(resolve_scalar_attr(&t(DType::Bool, vec![1], vec![1])), Ok(AttrValue::Bool(true))));
    assert!(matches!(resolve_scalar_attr(&t(DType::F16, vec![1], vec![0x3C00])), Ok(AttrValue::Float(0x3F80_0000))));
    // the smallest half subnormal is 2^-24; a half NaN stays a (quiet) NaN
    assert!(matches!(resolve_scalar_attr(&t(DType::F16, vec![1], vec![0x0001])), Ok(AttrValue::Float(b)) if f32::from_bits(b) == 2f32.powi(-24)));
    assert!(matches!(resolve_scalar_attr(&t(DType::F16, vec![1], vec![0x83FF])), Ok(AttrValue::Float(b)) if f32::from_bits(b) == -(1023.0 * 2f32.powi(-24))));
    assert!(matches!(resolve_scalar_attr(&t(DType::F16, vec![1], vec![0x7C01])), Ok(AttrValue::Float(b)) if f32::from_bits(b).is_nan()));
    assert!(matches!(resolve_scalar_attr(&t(DType::F16, vec![1], vec![0xFC00])), Ok(AttrValue::Float(b)) if f32::from_bits(b) == f32::NEG_INFINITY));
    assert!(matches!(resolve_scalar_attr(&t(DType::BF16, vec![1], vec![0x3F80])), Ok(AttrValue::Float(0x3F80_0000))));
    assert!(matches!(resolve_scalar_attr(&t(DType::F8, vec![1], vec![0x38])), Err(ScalarAttrError::FloatNeedsHost)));
    assert!(matches!(resolve_scalar_attr(&t(DType::U8, vec![2], vec![1, 2])), Err(ScalarAttrError::NotScalar)));
}

#[test]
fn increments_and_growth() {
    let v = increment_scalar(t(DType::I8, vec![1], vec![0x7F]), 1, false).unwrap();
    assert_eq!(scalar_to_i64(&v), Ok(-128));
    let v = increment_scalar(t(DType::U8, vec![1], vec![0]), 1, true).unwrap();
    assert_eq!(v.data, vec![0xFF]);
    assert_eq!(increment_scalar(t(DType::F32, vec![1], vec![0]), 1, false).err(), Some(CacheError::FloatIncrement));
    let grown = expand_tensor_value(&t(DType::I32, vec![1, 2], vec![1, 2]), &[2, 3]).unwrap();
    assert_eq!(grown.data, vec![1, 2, 0, 0, 0, 0]);
    assert_eq!(
        expand_tensor_value(&t(DType::I32, vec![2], vec![1, 2]), &[1]).err(),
        Some(CacheError::ResizeShrink)
    );
}

#[test]
fn yield_rules() {
    let b = Block { name: "worker".to_string(), node_count: 3 };
    let x = vec!["x".to_string()];
    assert_eq!(validate_yield_rules(&b, false, &[], &x, &[2]), Ok(()));
    assert_eq!(validate_yield_rules(&b, false, &[], &x, &[1]), Err(ValidationError::YieldNotFinal));
    assert_eq!(validate_yield_rules(&b, false, &x, &[], &[]), Err(ValidationError::AwaitWithoutYield));
    assert_eq!(
        validate_yield_rules(&b, false, &x, &["y".to_string()], &[2]),
        Err(ValidationError::AwaitedNotYielded)
    );
    assert_eq!(validate_yield_rules(&b, true, &x, &[], &[0]), Ok(()));
}

#[test]
fn trace_kinds_and_devices() {
    assert_eq!(TraceEventKind::OpExecute.as_str(), "OpExecute");
    assert!(Device::Cpu.is_supported());
    assert!(Device::Vulkan.is_supported());
}

#[test]
fn merged_yields_prefer_a_single_mutator() {
    let a = t(DType::I32, vec![1], vec![1]);
    let b = t(DType::I32, vec![1], vec![2]);
    let first = ConsumerResult { block_name: "a".to_string(), yielded: vec![("x".to_string(), a.clone())], mutated: vec![] };
    let second = ConsumerResult {
        block_name: "b".to_string(),
        yielded: vec![("x".to_string(), b.clone())],
        mutated: vec!["x".to_string()],
    };
    let merged = merge_consumer_results(&[first.clone(), second.clone()]).unwrap();
    assert_eq!(merged.get("x"), Some(&(1usize, 0usize, true)));
    let third = second.clone();
    assert_eq!(merge_consumer_results(&[second, third]).err(), Some(MergeError::MultipleMutators));
    let only = merge_consumer_results(&[first]).unwrap();
    assert_eq!(only.get("x"), Some(&(0usize, 0usize, false)));
}

#[test]
fn descriptor_codes_and_layout() {
    assert_eq!(dtype_code(DType::F32), 11);
    assert_eq!(dtype_code(DType::U4), 19);
    assert_eq!(dtype_code(DType::T1), 0);
    assert_eq!(encode_acc_rule(&[DType::I8, DType::I32]), 1 + 3 * 256);
    let five = [DType::I8, DType::I16, DType::I32, DType::U8, DType::F32];
    let packed = encode_acc_rule(&five);
    for i in 0..4 {
        assert_eq!((packed >> (8 * i)) & 0xff, dtype_code(five[i]));
    }
    assert_eq!(packed, encode_acc_rule(&five[..4]));
    assert_eq!(default_accum_dtype(DType::F16, false), DType::F32);
    assert_eq!(default_accum_dtype(DType::I32, true), DType::I64);
    assert_eq!(default_accum_dtype(DType::I1, false), DType::I32);
    assert_eq!(default_accum_dtype(DType::I2, true), DType::I32);
    assert_eq!(default_accum_dtype(DType::U1, true), DType::U32);
    assert_eq!(default_accum_dtype(DType::U2, false), DType::U32);
    assert_eq!(default_accum_dtype(DType::Bool, false), DType::F32);
    assert_eq!(tensor_byte_len(DType::I4, 3), 2);
    assert_eq!(tensor_byte_len(DType::F64, 3), 24);
    let d = build_tensor_desc(&TensorValue::zeros(DType::F32, &[2, 3]), 3, 16).unwrap();
    assert_eq!(d.rank, 3);
    assert_eq!(d.byte_offset, 16);
    assert_eq!(&d.shape[..3], &[1, 2, 3]);
    assert_eq!(&d.strides[..3], &[0, 3, 1]);
    assert_eq!(d.shape.len(), MAX_DIMS);
    assert_eq!(build_tensor_desc(&TensorValue::zeros(DType::F32, &[2]), MAX_DIMS + 1, 0).err(), Some(VkError::TooManyDims));
}

#[test]
fn staging_returns_then_takes_same_buffers() {
    let mut pool = StagingBuffers { input: vec![1], output: vec![2] };
    let taken = take_staging(&mut pool);
    assert_eq!((taken.input.clone(), taken.output.clone()), (vec![1], vec![2]));
    assert!(pool.input.is_empty() && pool.output.is_empty());
    return_staging(&mut pool, StagingBuffers { input: vec![5, 6], output: vec![7] });
    let again = take_staging(&mut pool);
    assert_eq!((again.input, again.output), (vec![5, 6], vec![7]));
    let mut slot = Some(42u64);
    assert_eq!(take_last_dispatch_duration(&mut slot), Some(42));
    assert_eq!(slot, None);
}

#[test]
fn casts_broadcasts_and_lookup() {
    assert!(is_allowed_cast(DType::I8, DType::F32));
    assert_eq!(broadcast_shape(&[2, 1, 3], &[4, 3]), Ok(vec![2, 4, 3]));
    assert_eq!(broadcast_shape(&[2, 3], &[4, 3]).err(), Some(VkError::BroadcastIncompatible));
    let k1 = OpKey { kind: OpKind::Relu, mode: OpMode::Normal, broadcast: false, inputs: vec![DType::F32], out0: DType::F32, acc_rule: None };
    let k2 = OpKey { kind: OpKind::Relu, mode: OpMode::Normal, broadcast: false, inputs: vec![DType::F32], out0: DType::F32, acc_rule: None };
    let table = vec![(k1.clone(), 1usize), (k2, 2usize)];
    assert_eq!(lookup_kernel(&table, &k1), Ok(2));
    let k3 = OpKey { kind: OpKind::Relu, mode: OpMode::Inplace, broadcast: false, inputs: vec![DType::F32], out0: DType::F32, acc_rule: None };
    assert_eq!(lookup_kernel(&table, &k3), Err(VkError::UnsupportedOp));
}

#[test]
fn relu_plans_fall_back_without_device_and_launch_with_one() {
    let x = TensorValue::zeros(DType::F32, &[4]);
    let out = TensorValue::zeros(DType::F32, &[4]);
    let attrs = OpAttrs { items: vec![] };
    let no_gpu = DispatchEnv {
        caps: None,
        op_supported: true,
        target: Some("relu_f32".to_string()),
        input_offsets: vec![0],
        schema_attrs: vec![],
        images: vec![],
    };
    match relu_normal_dispatch(&attrs, &[x.clone()], Some(&out), &no_gpu) {
        Ok(DispatchPlan::Fallback(k)) => assert_eq!(k.kind, OpKind::Relu),
        _ => panic!("expected the CPU kernel"),
    }
    let gpu = DispatchEnv { caps: Some(VulkanCaps { int64: true, float64: true, subgroup: false }), ..no_gpu };
    match relu_normal_dispatch(&attrs, &[x.clone()], Some(&out), &gpu) {
        Ok(DispatchPlan::Launch(p)) => {
            assert_eq!(p.entry, "relu_f32");
            assert_eq!(p.len, 4);
            assert_eq!(p.descs.len(), 2);
            assert_eq!(&p.push[..4], &[4, 2, 0, 0]);
        }
        _ => panic!("expected a launch"),
    }
    assert!(matches!(relu_normal_dispatch(&attrs, &[x], None, &gpu), Err(VkError::MissingOutput)));
}

#[test]
fn dispatch_sizes() {
    assert_eq!(dispatch_groups(0, 64), 1);
    assert_eq!(dispatch_groups(64, 64), 1);
    assert_eq!(dispatch_groups(65, 64), 2);
    assert_eq!(dispatch_groups(130, 0), 130);
    assert_eq!(dispatch_groups(u32::MAX, 256), 16_777_216);
    let spec = VulkanOpSpec {
        entry: "k".to_string(),
        spv_dir: ".".to_string(),
        workgroup_x: 64,
        workgroup_y: 1,
        workgroup_z: 1,
        push_constant_size: 16,
    };
    assert!(push_constants_fit(&spec, 16));
    assert!(!push_constants_fit(&spec, 17));
}
