use openinfer::dtype::DType;
use openinfer::random::{generate_signed_with_seed, generate_unsigned_with_seed, Random, RandomError, RandomOpts};
use openinfer::spirv::{is_framed, read_spv_string, select_entrypoint, spirv_entrypoints, validate_spirv, SpirvError};
use openinfer::tensor::TensorValue;
use openinfer::tensor_bytes::{tensor_to_bytes, write_tensor_from_bytes, BytesError};

#[test]
fn half_floats_round_trip_through_bytes() {
    let t = TensorValue::new(DType::F16, vec![2], vec![0x3C00, 0xC000]).unwrap();
    let b = tensor_to_bytes(&t).unwrap();
    assert_eq!(b, vec![0x00, 0x3C, 0x00, 0xC0]);
    let mut out = TensorValue::zeros(DType::F16, &[2]);
    assert_eq!(write_tensor_from_bytes(&mut out, &b), Ok(()));
    assert_eq!(out.data, t.data);
}

#[test]
fn bools_and_bytes_round_trip() {
    let t = TensorValue::new(DType::Bool, vec![3], vec![1, 0, 1]).unwrap();
    let b = tensor_to_bytes(&t).unwrap();
    assert_eq!(b, vec![1, 0, 1]);
    let mut out = TensorValue::zeros(DType::Bool, &[3]);
    assert_eq!(write_tensor_from_bytes(&mut out, &[7, 0, 2, 9]), Ok(()));
    assert_eq!(out.data, vec![1, 0, 1]);
}

#[test]
fn wide_elements_use_machine_byte_order() {
    let t = TensorValue::new(DType::U32, vec![1], vec![0x0403_0201]).unwrap();
    let b = tensor_to_bytes(&t).unwrap();
    assert_eq!(b.len(), 4);
    assert_eq!(b, 0x0403_0201u32.to_ne_bytes().to_vec());
    let mut out = TensorValue::zeros(DType::U32, &[1]);
    let aligned: Vec<u32> = vec![0x0A0B_0C0D];
    let bytes: Vec<u8> = aligned.iter().flat_map(|w| w.to_ne_bytes()).collect();
    let r = write_tensor_from_bytes(&mut out, &bytes);
    assert!(r == Ok(()) || r == Err(BytesError::Unaligned));
    if r.is_ok() {
        assert_eq!(out.data, vec![0x0A0B_0C0D]);
    }
}

#[test]
fn byte_conversion_errors() {
    let t = TensorValue::zeros(DType::T2, &[4]);
    assert_eq!(tensor_to_bytes(&t), Err(BytesError::TernaryUnsupported));
    let mut out = TensorValue::zeros(DType::I8, &[4]);
    assert_eq!(write_tensor_from_bytes(&mut out, &[1, 2]), Err(BytesError::LengthMismatch));
    assert_eq!(out.data, vec![0, 0, 0, 0]);
}

fn le_word(s: &[u8]) -> u32 {
    u32::from_le_bytes([s[0], s[1], s[2], s[3]])
}

fn module_words() -> Vec<u32> {
    let mut w = vec![0x0723_0203, 0x0001_0000, 0, 10, 0];
    // an entry point: execution model, id, then the name in two words
    w.push((5 << 16) | 15);
    w.push(5);
    w.push(1);
    w.push(le_word(b"main"));
    w.push(0);
    // an instruction of one word
    w.push((1 << 16) | 0);
    w
}

#[test]
fn spirv_entry_points_are_read() {
    let w = module_words();
    assert!(is_framed(&w));
    assert_eq!(spirv_entrypoints(&w), vec!["main".to_string()]);
    let (s, used) = read_spv_string(&[le_word(b"abcd"), le_word(b"ef\0\0")]);
    assert_eq!(s, "abcdef");
    assert_eq!(used, 2);
    let mut broken = module_words();
    broken[5] = (40 << 16) | 15;
    assert!(!is_framed(&broken));
}

#[test]
fn entry_point_choice_prefers_target_then_main() {
    let names = vec!["first".to_string(), "main".to_string(), "relu_f32".to_string()];
    assert_eq!(select_entrypoint(&names, "relu_f32"), "relu_f32");
    assert_eq!(select_entrypoint(&names, "other"), "main");
    let names = vec!["first".to_string()];
    assert_eq!(select_entrypoint(&names, "other"), "first");
    assert_eq!(select_entrypoint(&[], "other"), "main");
}

#[test]
fn spirv_header_checks() {
    assert_eq!(validate_spirv(&[0u8; 19], "k"), Err(SpirvError::InvalidSize));
    assert_eq!(validate_spirv(&[0u8; 22], "k"), Err(SpirvError::InvalidSize));
    let words: Vec<u32> = vec![0x0723_0203, 0, 0, 0, 0];
    let bytes: Vec<u8> = words.iter().flat_map(|w| w.to_ne_bytes()).collect();
    let r = validate_spirv(&bytes, "k");
    assert!(r == Ok(()) || r == Err(SpirvError::Unaligned));
    let bad: Vec<u8> = vec![0u8; 20];
    let r = validate_spirv(&bad, "k");
    assert!(r == Err(SpirvError::InvalidMagic) || r == Err(SpirvError::Unaligned));
}

fn signed_values(t: &TensorValue, bits: u32) -> Vec<i64> {
    t.data
        .iter()
        .map(|v| {
            let m = 1i128 << bits;
            let x = *v as i128;
            (if x >= m / 2 { x - m } else { x }) as i64
        })
        .collect()
}

#[test]
fn seeded_random_is_repeatable_and_in_range() {
    let opts = RandomOpts { shape: None, has_strides: false };
    let a = generate_signed_with_seed(7, DType::I8, -5, 5, 16, &opts).unwrap();
    let b = generate_signed_with_seed(7, DType::I8, -5, 5, 16, &opts).unwrap();
    assert_eq!(a.data, b.data);
    assert_eq!(a.shape, vec![16]);
    assert!(signed_values(&a, 8).iter().all(|v| -5 <= *v && *v <= 5));
    let u = generate_unsigned_with_seed(3, DType::U16, 10, 20, 8, &opts).unwrap();
    assert!(u.data.iter().all(|v| 10 <= *v && *v <= 20));
    let mut r = Random::with_seed(1);
    let x = r.next_signed(DType::I64, -1, 1, 4, &opts).unwrap();
    assert!(signed_values(&x, 64).iter().all(|v| -1 <= *v && *v <= 1));
}

#[test]
fn random_shape_rules() {
    let strides_only = RandomOpts { shape: None, has_strides: true };
    assert_eq!(generate_signed_with_seed(0, DType::I32, 0, 1, 4, &strides_only).err(), Some(RandomError::StridesNeedShape));
    let wrong = RandomOpts { shape: Some(vec![2, 3]), has_strides: false };
    assert_eq!(generate_unsigned_with_seed(0, DType::U8, 0, 1, 4, &wrong).err(), Some(RandomError::ShapeLenMismatch));
    let right = RandomOpts { shape: Some(vec![2, 2]), has_strides: true };
    assert_eq!(generate_unsigned_with_seed(0, DType::U8, 0, 1, 4, &right).unwrap().shape, vec![2, 2]);
}

#[test]
fn spirv_bytes_become_whole_words() {
    assert!(openinfer::spirv::spirv_words(&[0u8; 6]).is_none());
    let words: Vec<u32> = vec![0x0723_0203, 7];
    let bytes: Vec<u8> = words.iter().flat_map(|w| w.to_ne_bytes()).collect();
    if let Some(w) = openinfer::spirv::spirv_words(&bytes) {
        assert_eq!(w, words);
    }
}

#[test]
fn wide_tensors_round_trip_through_bytes() {
    for (d, data) in [
        (DType::I16, vec![0xFFFFu64, 0x1234, 0]),
        (DType::U32, vec![0xDEAD_BEEF, 1, 0x8000_0000]),
        (DType::F32, vec![(-2.5f32).to_bits() as u64, 1.0f32.to_bits() as u64, 0]),
        (DType::F64, vec![(-2.5f64).to_bits(), u64::MAX, 7]),
    ] {
        let t = TensorValue::new(d, vec![3], data.clone()).unwrap();
        let b = tensor_to_bytes(&t).unwrap();
        let width = b.len() / 3;
        for (i, x) in data.iter().enumerate() {
            let le: Vec<u8> = (0..width).map(|k| (x >> (8 * k)) as u8).collect();
            let mut be = le.clone();
            be.reverse();
            let got = b[i * width..(i + 1) * width].to_vec();
            assert!(got == le || got == be);
        }
        let mut out = TensorValue::zeros(d, &[3]);
        match write_tensor_from_bytes(&mut out, &b) {
            Ok(()) => assert_eq!(out.data, data),
            Err(e) => assert_eq!(e, BytesError::Unaligned),
        }
    }
}

#[test]
fn spirv_magic_is_checked_in_either_byte_order() {
    let mut le = Vec::new();
    for w in [0x0723_0203u32, 0x0001_0000, 0, 1, 0] {
        le.extend(w.to_le_bytes());
    }
    let mut be = Vec::new();
    for w in [0x0723_0203u32, 0x0001_0000, 0, 1, 0] {
        be.extend(w.to_be_bytes());
    }
    let native = if 1u32.to_ne_bytes()[0] == 1 { &le } else { &be };
    let r = validate_spirv(native, "main");
    assert!(r == Ok(()) || r == Err(SpirvError::Unaligned));
    let mut bad = native.clone();
    bad[0] ^= 0xFF;
    bad[3] ^= 0xFF;
    let r = validate_spirv(&bad, "main");
    assert!(r == Err(SpirvError::InvalidMagic) || r == Err(SpirvError::Unaligned));
}
