//! Tensors as the bytes of a GPU staging buffer, and back. Byte-sized and
//! packed elements are their storage bytes; half floats are two
//! little-endian bytes; wider elements are reinterpreted in the machine's
//! byte order by `bytemuck`.
use vstd::prelude::*;
use crate::dtype::{bits_of, packed, storage_units, DType};
use crate::tensor::{elem_max, numel, TensorValue, TensorView};
use crate::vk_desc::{byte_place, mul_sat, tensor_byte_len, tensor_byte_len_spec};

verus! {

/// Why a tensor and a byte buffer do not convert.
#[derive(Clone, Copy, Debug, PartialEq, Eq, Structural)]
pub enum BytesError {
    TernaryUnsupported,
    LengthMismatch,
    Unaligned,
}

/// Width in bytes of the element types that are reinterpreted in the
/// machine's byte order; 0 for the others.
pub open spec fn native_width(d: DType) -> nat {
    match d {
        DType::I16 | DType::U16 => 2,
        DType::I32 | DType::U32 | DType::F32 => 4,
        DType::I64 | DType::U64 | DType::F64 => 8,
        _ => 0,
    }
}

/// Half floats, written as two little-endian bytes each.
pub open spec fn is_half(d: DType) -> bool {
    d == DType::F16 || d == DType::BF16
}

/// The ternary packed types, which have no byte form here.
pub open spec fn is_ternary(d: DType) -> bool {
    d == DType::T1 || d == DType::T2
}

/// The bytes of storage units that are one byte each.
pub open spec fn bytewise_bytes(data: Seq<u64>) -> Seq<u8> {
    Seq::new(data.len(), |i: int| data[i] as u8)
}

/// Two little-endian bytes per element.
pub open spec fn half_bytes(data: Seq<u64>) -> Seq<u8> {
    Seq::new(
        2 * data.len(),
        |j: int| if j % 2 == 0 { (data[j / 2] % 256) as u8 } else { ((data[j / 2] / 256) % 256) as u8 },
    )
}

/// The byte form of a tensor where it does not depend on the machine.
pub open spec fn tensor_bytes_spec(t: TensorView) -> Result<Seq<u8>, BytesError> {
    if is_ternary(t.dtype) {
        Err(BytesError::TernaryUnsupported)
    } else if is_half(t.dtype) {
        Ok(half_bytes(t.data))
    } else {
        Ok(bytewise_bytes(t.data))
    }
}

/// Storage units read back from bytes one byte each (a boolean is any
/// byte but zero).
pub open spec fn units_from_bytes(d: DType, bytes: Seq<u8>) -> Seq<u64> {
    Seq::new(bytes.len(), |i: int| if d == DType::Bool { if bytes[i] != 0 { 1u64 } else { 0u64 } } else { bytes[i] as u64 })
}

/// Half floats read back from two little-endian bytes each.
pub open spec fn halves_from_bytes(bytes: Seq<u8>) -> Seq<u64> {
    Seq::new(bytes.len() / 2, |i: int| (bytes[2 * i] as u64 + 256 * (bytes[2 * i + 1] as u64)) as u64)
}

/// Byte `k` of `x`, counting from the least significant.
pub open spec fn byte_at(x: u64, k: nat) -> u8 {
    ((x as int / byte_place(k) as int) % 256) as u8
}

/// Each value as `w` bytes, least significant first.
pub open spec fn le_bytes(v: Seq<u64>, w: nat) -> Seq<u8> {
    Seq::new(v.len() * w, |j: int| byte_at(v[j / w as int], (j % w as int) as nat))
}

/// Each value as `w` bytes, most significant first.
pub open spec fn be_bytes(v: Seq<u64>, w: nat) -> Seq<u8> {
    Seq::new(v.len() * w, |j: int| byte_at(v[j / w as int], (w - 1 - j % w as int) as nat))
}

/// The number bytes make read least significant first.
pub open spec fn le_value(bs: Seq<u8>) -> nat
    decreases bs.len(),
{
    if bs.len() == 0 {
        0
    } else {
        bs[0] as nat + 256 * le_value(bs.drop_first())
    }
}

/// The number bytes make read most significant first.
pub open spec fn be_value(bs: Seq<u8>) -> nat
    decreases bs.len(),
{
    if bs.len() == 0 {
        0
    } else {
        256 * be_value(bs.drop_last()) + bs.last() as nat
    }
}

/// Every `w` bytes read least significant first (trailing bytes left out).
pub open spec fn le_units(b: Seq<u8>, w: nat) -> Seq<u64> {
    Seq::new(b.len() / w, |i: int| le_value(b.subrange(i * w, i * w + w)) as u64)
}

/// Every `w` bytes read most significant first (trailing bytes left out).
pub open spec fn be_units(b: Seq<u8>, w: nat) -> Seq<u64> {
    Seq::new(b.len() / w, |i: int| be_value(b.subrange(i * w, i * w + w)) as u64)
}

/// Values of a narrower type as storage units.
pub open spec fn widen16(s: Seq<u16>) -> Seq<u64> {
    Seq::new(s.len(), |i: int| s[i] as u64)
}

/// Values of a narrower type as storage units.
pub open spec fn widen32(s: Seq<u32>) -> Seq<u64> {
    Seq::new(s.len(), |i: int| s[i] as u64)
}

/// The bytes of `x` from byte `k` on, least significant first.
pub open spec fn unit_le(x: u64, k: nat, w: nat) -> Seq<u8> {
    Seq::new(w, |i: int| byte_at(x, (k + i) as nat))
}

proof fn lemma_place_pos(k: nat)
    ensures
        byte_place(k) > 0,
        byte_place(k + 1) == 256 * byte_place(k),
    decreases k,
{
    if k > 0 {
        lemma_place_pos((k - 1) as nat);
    }
}

/// Reading `w` bytes of `x` from byte `k` on gives what is left of `x`
/// past its first `k` bytes, cut to `w` bytes.
proof fn lemma_unit_le(x: u64, k: nat, w: nat)
    ensures
        le_value(unit_le(x, k, w)) == (x as int / byte_place(k) as int) % byte_place(w) as int,
    decreases w,
{
    lemma_place_pos(k);
    lemma_place_pos(w);
    if w == 0 {
        assert(byte_place(0) == 1);
    } else {
        let s = unit_le(x, k, w);
        assert(s.drop_first() =~= unit_le(x, k + 1, (w - 1) as nat));
        lemma_unit_le(x, k + 1, (w - 1) as nat);
        lemma_place_pos((w - 1) as nat);
        let q = x as int / byte_place(k) as int;
        vstd::arithmetic::div_mod::lemma_div_denominator(x as int, byte_place(k) as int, 256);
        assert(x as int / byte_place(k + 1) as int == q / 256);
        let pw1 = byte_place((w - 1) as nat) as int;
        vstd::arithmetic::div_mod::lemma_div_pos_is_pos(x as int, byte_place(k) as int);
        // q % (256 * pw1) == q % 256 + 256 * ((q / 256) % pw1)
        vstd::arithmetic::div_mod::lemma_fundamental_div_mod(q, 256);
        vstd::arithmetic::div_mod::lemma_fundamental_div_mod(q / 256, pw1);
        let a = q % 256;
        let b = (q / 256) % pw1;
        let c = (q / 256) / pw1;
        assert(q == (256 * pw1) * c + (a + 256 * b)) by (nonlinear_arith)
            requires
                q == 256 * (q / 256) + a,
                q / 256 == pw1 * c + b,
        ;
        assert(0 <= a + 256 * b < 256 * pw1) by (nonlinear_arith)
            requires
                0 <= a < 256,
                0 <= b < pw1,
        ;
        vstd::arithmetic::div_mod::lemma_fundamental_div_mod_converse(q, 256 * pw1, c, a + 256 * b);
        assert(byte_place(w) == 256 * byte_place((w - 1) as nat));
        assert(s[0] == byte_at(x, k));
    }
}

/// Same reading, most significant first.
pub open spec fn unit_be(x: u64, w: nat) -> Seq<u8> {
    Seq::new(w, |i: int| byte_at(x, (w - 1 - i) as nat))
}

proof fn lemma_be_is_reversed_le(bs: Seq<u8>)
    ensures
        be_value(bs) == le_value(bs.reverse()),
    decreases bs.len(),
{
    if bs.len() > 0 {
        lemma_be_is_reversed_le(bs.drop_last());
        assert(bs.reverse().drop_first() =~= bs.drop_last().reverse());
    }
}

/// A value below `256^w` is what its `w` bytes read back as, in either
/// order.
proof fn lemma_unit_roundtrip(x: u64, w: nat)
    requires
        (x as int) < byte_place(w) as int,
    ensures
        le_value(unit_le(x, 0, w)) == x,
        be_value(unit_be(x, w)) == x,
{
    lemma_unit_le(x, 0, w);
    assert(byte_place(0) == 1);
    vstd::arithmetic::div_mod::lemma_small_mod(x as nat, byte_place(w));
    lemma_be_is_reversed_le(unit_be(x, w));
    assert(unit_be(x, w).reverse() =~= unit_le(x, 0, w));
}

/// Position `k` of group `i` of `w`-byte groups.
proof fn lemma_group_pos(i: int, k: int, w: int, n: int)
    requires
        w >= 1,
        0 <= i < n,
        0 <= k < w,
    ensures
        (i * w + k) / w == i,
        (i * w + k) % w == k,
        0 <= i * w + k < n * w,
        i * w + w <= n * w,
{
    vstd::arithmetic::div_mod::lemma_fundamental_div_mod_converse(i * w + k, w, i, k);
    assert(i * w + w <= n * w) by (nonlinear_arith)
        requires
            i < n,
            w >= 1,
    ;
    assert(0 <= i * w) by (nonlinear_arith)
        requires
            i >= 0,
            w >= 1,
    ;
}

/// Values below `256^w`, written `w` bytes each and read back in the same
/// order, come back unchanged.
pub proof fn lemma_units_roundtrip(v: Seq<u64>, w: nat)
    requires
        w >= 1,
        forall|i: int| 0 <= i < v.len() ==> (#[trigger] v[i] as int) < byte_place(w) as int,
    ensures
        le_units(le_bytes(v, w), w) == v,
        be_units(be_bytes(v, w), w) == v,
{
    let n = v.len() as int;
    let wi = w as int;
    vstd::arithmetic::div_mod::lemma_fundamental_div_mod_converse(n * wi, wi, n, 0);
    let lb = le_bytes(v, w);
    let bb = be_bytes(v, w);
    assert(lb.len() == n * wi);
    assert forall|i: int| 0 <= i < n implies #[trigger] le_units(lb, w)[i] == v[i] && be_units(bb, w)[i] == v[i] by {
        assert forall|k: int| 0 <= k < wi implies (#[trigger] lb.subrange(i * wi, i * wi + wi)[k]) == unit_le(v[i], 0, w)[k] by {
            lemma_group_pos(i, k, wi, n);
        }
        assert forall|k: int| 0 <= k < wi implies (#[trigger] bb.subrange(i * wi, i * wi + wi)[k]) == unit_be(v[i], w)[k] by {
            lemma_group_pos(i, k, wi, n);
        }
        lemma_group_pos(i, 0, wi, n);
        assert(lb.subrange(i * wi, i * wi + wi) =~= unit_le(v[i], 0, w));
        assert(bb.subrange(i * wi, i * wi + wi) =~= unit_be(v[i], w));
        lemma_unit_roundtrip(v[i], w);
    }
    assert(le_units(lb, w) =~= v);
    assert(be_units(bb, w) =~= v);
}

/// `bytemuck::cast_slice` from 16-bit words to bytes: each word's two
/// bytes in the machine's byte order, so the words written least
/// significant byte first or most significant byte first, whichever the
/// machine uses.
#[verifier::external_body]
fn ne_bytes_u16(v: &[u16]) -> (r: Vec<u8>)
    ensures
        r@ == le_bytes(widen16(v@), 2) || r@ == be_bytes(widen16(v@), 2),
{
    bytemuck::cast_slice::<u16, u8>(v).to_vec()
}

/// `bytemuck::cast_slice` from 32-bit words to bytes, four per word in the
/// machine's byte order.
#[verifier::external_body]
fn ne_bytes_u32(v: &[u32]) -> (r: Vec<u8>)
    ensures
        r@ == le_bytes(widen32(v@), 4) || r@ == be_bytes(widen32(v@), 4),
{
    bytemuck::cast_slice::<u32, u8>(v).to_vec()
}

/// `bytemuck::cast_slice` from 64-bit words to bytes, eight per word in the
/// machine's byte order.
#[verifier::external_body]
fn ne_bytes_u64(v: &[u64]) -> (r: Vec<u8>)
    ensures
        r@ == le_bytes(v@, 8) || r@ == be_bytes(v@, 8),
{
    bytemuck::cast_slice::<u64, u8>(v).to_vec()
}

/// `bytemuck::try_cast_slice` from bytes to 16-bit words: fails when the
/// length is not a multiple of two or the bytes are not aligned for words
/// (which depends on their address); otherwise each two bytes read in the
/// machine's byte order.
#[verifier::external_body]
fn u16s_from_ne_bytes(b: &[u8]) -> (r: Option<Vec<u16>>)
    ensures
        b@.len() % 2 != 0 ==> r is None,
        r matches Some(v) ==> 2 * v@.len() == b@.len() && (widen16(v@) == le_units(b@, 2) || widen16(v@)
            == be_units(b@, 2)),
{
    match bytemuck::try_cast_slice::<u8, u16>(b) {
        Ok(s) => Some(s.to_vec()),
        Err(_) => None,
    }
}

/// `bytemuck::try_cast_slice` from bytes to 32-bit words, likewise.
#[verifier::external_body]
fn u32s_from_ne_bytes(b: &[u8]) -> (r: Option<Vec<u32>>)
    ensures
        b@.len() % 4 != 0 ==> r is None,
        r matches Some(v) ==> 4 * v@.len() == b@.len() && (widen32(v@) == le_units(b@, 4) || widen32(v@)
            == be_units(b@, 4)),
{
    match bytemuck::try_cast_slice::<u8, u32>(b) {
        Ok(s) => Some(s.to_vec()),
        Err(_) => None,
    }
}

/// `bytemuck::try_cast_slice` from bytes to 64-bit words, likewise.
#[verifier::external_body]
fn u64s_from_ne_bytes(b: &[u8]) -> (r: Option<Vec<u64>>)
    ensures
        b@.len() % 8 != 0 ==> r is None,
        r matches Some(v) ==> 8 * v@.len() == b@.len() && (v@ == le_units(b@, 8) || v@ == be_units(b@, 8)),
{
    match bytemuck::try_cast_slice::<u8, u64>(b) {
        Ok(s) => Some(s.to_vec()),
        Err(_) => None,
    }
}

/// Append the byte form of `value` to `out`: for byte-sized, packed and
/// half types as `tensor_bytes_spec` gives it; for wider types
/// `native_width` bytes per element in the machine's byte order.
pub fn tensor_append_bytes(value: &TensorValue, out: &mut Vec<u8>) -> (r: Result<(), BytesError>)
    requires
        value.wf(),
    ensures
        is_ternary(value.dtype) ==> r == Err::<(), BytesError>(BytesError::TernaryUnsupported) && final(out)@
            == old(out)@,
        !is_ternary(value.dtype) ==> r is Ok,
        !is_ternary(value.dtype) && native_width(value.dtype) == 0 ==> final(out)@ == old(out)@ + tensor_bytes_spec(
            value@,
        )->Ok_0,
        native_width(value.dtype) > 0 ==> final(out)@ == old(out)@ + le_bytes(value.data@, native_width(value.dtype))
            || final(out)@ == old(out)@ + be_bytes(value.data@, native_width(value.dtype)),
{
    let d = value.dtype;
    if d == DType::T1 || d == DType::T2 {
        return Err(BytesError::TernaryUnsupported);
    }
    let n = value.data.len();
    let ghost start = out@;
    match d {
        DType::I16 | DType::U16 => {
            let mut w: Vec<u16> = Vec::new();
            let mut i: usize = 0;
            while i < n
                invariant
                    i <= n == value.data@.len(),
                    w@.len() == i,
                    value.wf(),
                    d == value.dtype,
                    d == DType::I16 || d == DType::U16,
                    forall|j: int| 0 <= j < i ==> #[trigger] w@[j] as u64 == value.data@[j],
                decreases n - i,
            {
                assert(value.data@[i as int] <= elem_max(d));
                w.push(value.data[i] as u16);
                i = i + 1;
            }
            assert(widen16(w@) =~= value.data@);
            let b = ne_bytes_u16(w.as_slice());
            append_all(out, &b);
        },
        DType::I32 | DType::U32 | DType::F32 => {
            let mut w: Vec<u32> = Vec::new();
            let mut i: usize = 0;
            while i < n
                invariant
                    i <= n == value.data@.len(),
                    w@.len() == i,
                    value.wf(),
                    d == value.dtype,
                    d == DType::I32 || d == DType::U32 || d == DType::F32,
                    forall|j: int| 0 <= j < i ==> #[trigger] w@[j] as u64 == value.data@[j],
                decreases n - i,
            {
                assert(value.data@[i as int] <= elem_max(d));
                w.push(value.data[i] as u32);
                i = i + 1;
            }
            assert(widen32(w@) =~= value.data@);
            let b = ne_bytes_u32(w.as_slice());
            append_all(out, &b);
        },
        DType::I64 | DType::U64 | DType::F64 => {
            let b = ne_bytes_u64(value.data.as_slice());
            append_all(out, &b);
        },
        DType::F16 | DType::BF16 => {
            let mut i: usize = 0;
            while i < n
                invariant
                    i <= n == value.data@.len(),
                    out@ == start + half_bytes(value.data@.subrange(0, i as int)),
                decreases n - i,
            {
                let x = value.data[i];
                out.push((x % 256) as u8);
                out.push(((x / 256) % 256) as u8);
                i = i + 1;
                assert(out@ =~= start + half_bytes(value.data@.subrange(0, i as int)));
            }
            assert(value.data@.subrange(0, n as int) =~= value.data@);
        },
        _ => {
            let mut i: usize = 0;
            while i < n
                invariant
                    i <= n == value.data@.len(),
                    out@ == start + bytewise_bytes(value.data@.subrange(0, i as int)),
                decreases n - i,
            {
                out.push(value.data[i] as u8);
                i = i + 1;
                assert(out@ =~= start + bytewise_bytes(value.data@.subrange(0, i as int)));
            }
            assert(value.data@.subrange(0, n as int) =~= value.data@);
        },
    }
    Ok(())
}

fn append_all(out: &mut Vec<u8>, b: &Vec<u8>)
    ensures
        final(out)@ == old(out)@ + b@,
{
    let ghost start = out@;
    let mut i: usize = 0;
    while i < b.len()
        invariant
            i <= b@.len(),
            out@ == start + b@.subrange(0, i as int),
        decreases b@.len() - i,
    {
        out.push(b[i]);
        i = i + 1;
        assert(out@ =~= start + b@.subrange(0, i as int));
    }
    assert(b@.subrange(0, b@.len() as int) =~= b@);
}

/// The byte form of `value`, as `tensor_append_bytes` writes it.
pub fn tensor_to_bytes(value: &TensorValue) -> (r: Result<Vec<u8>, BytesError>)
    requires
        value.wf(),
    ensures
        is_ternary(value.dtype) ==> r == Err::<Vec<u8>, BytesError>(BytesError::TernaryUnsupported),
        !is_ternary(value.dtype) && native_width(value.dtype) == 0 ==> (r matches Ok(v) && v@ == tensor_bytes_spec(
            value@,
        )->Ok_0),
        native_width(value.dtype) > 0 ==> (r matches Ok(v) && (v@ == le_bytes(value.data@, native_width(value.dtype))
            || v@ == be_bytes(value.data@, native_width(value.dtype)))),
{
    let mut out: Vec<u8> = Vec::new();
    match tensor_append_bytes(value, &mut out) {
        Ok(()) => {
            assert(Seq::<u8>::empty() + out@ =~= out@);
            Ok(out)
        },
        Err(e) => Err(e),
    }
}


/// The storage units that bytes give back for a byte-sized, packed or half
/// type.
pub open spec fn decode_spec(d: DType, bytes: Seq<u8>) -> Seq<u64> {
    if is_half(d) {
        halves_from_bytes(bytes)
    } else {
        units_from_bytes(d, bytes)
    }
}

proof fn lemma_exact_count(n: nat, k: nat, w: nat)
    requires
        1 <= k <= 8,
        k * w == mul_sat(n, k),
        (usize::MAX as int) % (k as int) != 0,
    ensures
        w == n,
{
    if n * k > usize::MAX {
        assert(((k * w) as int) % (k as int) == 0) by (nonlinear_arith)
            requires
                k >= 1,
        ;
        assert(false);
    } else {
        assert(k * w == n * k);
        assert(w == n) by (nonlinear_arith)
            requires
                k * w == n * k,
                k >= 1,
        ;
    }
}

/// Fill `output` from a staging buffer's bytes: bytes past the tensor's
/// byte length are ignored, and fewer bytes than that is an error that
/// leaves `output` as it was. Byte-sized, packed and half types take their
/// units as `decode_spec` gives them; wider types are reinterpreted in the
/// machine's byte order, which fails on bytes not aligned for them.
pub fn write_tensor_from_bytes(output: &mut TensorValue, bytes: &[u8]) -> (r: Result<(), BytesError>)
    requires
        old(output).wf(),
    ensures
        final(output).wf(),
        final(output).dtype == old(output).dtype,
        final(output).shape@ == old(output).shape@,
        r is Err ==> final(output)@ == old(output)@,
        ({
            let d = old(output).dtype;
            let expected = tensor_byte_len_spec(d, numel(old(output).shape@) as usize);
            &&& is_ternary(d) ==> r == Err::<(), BytesError>(BytesError::TernaryUnsupported)
            &&& !is_ternary(d) && bytes@.len() < expected ==> r == Err::<(), BytesError>(BytesError::LengthMismatch)
            &&& !is_ternary(d) && bytes@.len() >= expected && is_half(d) && 2 * numel(old(output).shape@) > usize::MAX
                ==> r == Err::<(), BytesError>(BytesError::LengthMismatch)
            &&& !is_ternary(d) && bytes@.len() >= expected && native_width(d) == 0 && !(is_half(d) && 2 * numel(
                old(output).shape@,
            ) > usize::MAX) ==> r is Ok && final(output).data@ == decode_spec(d, bytes@.subrange(0, expected as int))
            &&& !is_ternary(d) && bytes@.len() >= expected && native_width(d) > 0 ==> (r is Ok || r == Err::<
                (),
                BytesError,
            >(BytesError::Unaligned))
            &&& !is_ternary(d) && native_width(d) > 0 && r is Ok ==> (final(output).data@ == le_units(
                bytes@.subrange(0, expected as int),
                native_width(d),
            ) || final(output).data@ == be_units(bytes@.subrange(0, expected as int), native_width(d)))
        }),
{
    let d = output.dtype;
    if d == DType::T1 || d == DType::T2 {
        return Err(BytesError::TernaryUnsupported);
    }
    let n = output.len();
    let expected = tensor_byte_len(d, n);
    if bytes.len() < expected {
        return Err(BytesError::LengthMismatch);
    }
    let b = &bytes[0..expected];
    assert(b@ == bytes@.subrange(0, expected as int));
    let ghost units = storage_units(d, n as nat);
    let mut data: Vec<u64> = Vec::new();
    match d {
        DType::I16 | DType::U16 => {
            let w = match u16s_from_ne_bytes(b) {
                Some(w) => w,
                None => return Err(BytesError::Unaligned),
            };
            proof {
                lemma_exact_count(n as nat, 2, w@.len());
            }
            let mut i: usize = 0;
            while i < w.len()
                invariant
                    i <= w@.len(),
                    data@.len() == i,
                    forall|j: int| 0 <= j < i ==> #[trigger] data@[j] <= 0xFFFF,
                    forall|j: int| 0 <= j < i ==> data@[j] == #[trigger] w@[j] as u64,
                decreases w@.len() - i,
            {
                data.push(w[i] as u64);
                i = i + 1;
            }
            assert(data@ =~= widen16(w@));
        },
        DType::I32 | DType::U32 | DType::F32 => {
            let w = match u32s_from_ne_bytes(b) {
                Some(w) => w,
                None => return Err(BytesError::Unaligned),
            };
            proof {
                lemma_exact_count(n as nat, 4, w@.len());
            }
            let mut i: usize = 0;
            while i < w.len()
                invariant
                    i <= w@.len(),
                    data@.len() == i,
                    forall|j: int| 0 <= j < i ==> #[trigger] data@[j] <= 0xFFFF_FFFF,
                    forall|j: int| 0 <= j < i ==> data@[j] == #[trigger] w@[j] as u64,
                decreases w@.len() - i,
            {
                data.push(w[i] as u64);
                i = i + 1;
            }
            assert(data@ =~= widen32(w@));
        },
        DType::I64 | DType::U64 | DType::F64 => {
            data = match u64s_from_ne_bytes(b) {
                Some(w) => w,
                None => return Err(BytesError::Unaligned),
            };
            proof {
                lemma_exact_count(n as nat, 8, data@.len());
            }
        },
        DType::F16 | DType::BF16 => {
            if n > usize::MAX / 2 {
                return Err(BytesError::LengthMismatch);
            }
            assert(bits_of(d) == 16 && (bits_of(d) + 7) / 8 == 2);
            assert(!packed(d));
            assert(tensor_byte_len_spec(d, n) == mul_sat(n as nat, 2));
            assert((n as nat) * 2 == 2 * n) by (nonlinear_arith);
            assert(mul_sat(n as nat, 2) == 2 * n);
            assert(expected == 2 * n);
            let mut i: usize = 0;
            while i < n
                invariant
                    i <= n,
                    b@.len() == expected == 2 * n,
                    data@ == halves_from_bytes(b@).subrange(0, i as int),
                decreases n - i,
            {
                let v = b[2 * i] as u64 + 256 * (b[2 * i + 1] as u64);
                data.push(v);
                i = i + 1;
                assert(data@ =~= halves_from_bytes(b@).subrange(0, i as int));
            }
            assert(data@ =~= halves_from_bytes(b@));
        },
        _ => {
            assert(packed(d) || (bits_of(d) + 7) / 8 == 1);
            if d.is_packed() {
                let ghost bw = bits_of(d);
                assert((n * bw + 7) / 8 <= n) by (nonlinear_arith)
                    requires
                        1 <= bw <= 4,
                ;
                assert(expected == units);
            } else {
                let ghost nn: nat = n as nat;
                assert(nn * 1 == nn) by (nonlinear_arith);
                assert(mul_sat(nn, 1) == n);
                assert(expected == units);
            }
            let is_bool = d == DType::Bool;
            let mut i: usize = 0;
            while i < b.len()
                invariant
                    i <= b@.len(),
                    is_bool == (d == DType::Bool),
                    data@ == units_from_bytes(d, b@).subrange(0, i as int),
                decreases b@.len() - i,
            {
                let v: u64 = if is_bool {
                    if b[i] != 0 {
                        1
                    } else {
                        0
                    }
                } else {
                    b[i] as u64
                };
                data.push(v);
                i = i + 1;
                assert(data@ =~= units_from_bytes(d, b@).subrange(0, i as int));
            }
            assert(data@ =~= units_from_bytes(d, b@));
        },
    }
    assert(data@.len() == units);
    assert(forall|j: int| 0 <= j < data@.len() ==> #[trigger] data@[j] <= elem_max(d));
    output.data = data;
    Ok(())
}

/// For byte-sized, packed and half types, the bytes of a tensor are as
/// many as its byte length, and reading them back gives its storage units
/// again.
pub proof fn law_bytes_roundtrip(t: TensorView)
    requires
        t.data.len() == storage_units(t.dtype, numel(t.shape)),
        numel(t.shape) <= usize::MAX,
        2 * numel(t.shape) <= usize::MAX,
        forall|i: int| 0 <= i < t.data.len() ==> #[trigger] t.data[i] <= elem_max(t.dtype),
        !is_ternary(t.dtype),
        native_width(t.dtype) == 0,
    ensures
        tensor_bytes_spec(t) is Ok,
        tensor_bytes_spec(t)->Ok_0.len() == tensor_byte_len_spec(t.dtype, numel(t.shape) as usize),
        decode_spec(t.dtype, tensor_bytes_spec(t)->Ok_0) == t.data,
{
    let b = tensor_bytes_spec(t)->Ok_0;
    let n = numel(t.shape);
    if packed(t.dtype) {
        let bw = bits_of(t.dtype);
        assert((n * bw + 7) / 8 <= n) by (nonlinear_arith)
            requires
                1 <= bw <= 4,
        ;
    }
    if !packed(t.dtype) && !is_half(t.dtype) {
        assert(bits_of(t.dtype) == 8);
        assert((bits_of(t.dtype) + 7) / 8 == 1);
    }
    if is_half(t.dtype) {
        assert((bits_of(t.dtype) + 7) / 8 == 2);
        assert(decode_spec(t.dtype, b) =~= t.data) by {
            assert forall|i: int| 0 <= i < t.data.len() implies #[trigger] halves_from_bytes(b)[i] == t.data[i] by {
                let x = t.data[i];
                assert(b[2 * i] == (x % 256) as u8);
                assert(b[2 * i + 1] == ((x / 256) % 256) as u8);
                assert(x <= 0xFFFF);
                assert((x % 256) + 256 * ((x / 256) % 256) == x) by (nonlinear_arith)
                    requires
                        x <= 0xFFFF,
                ;
            }
        }
    } else {
        assert(decode_spec(t.dtype, b) =~= t.data) by {
            assert forall|i: int| 0 <= i < t.data.len() implies #[trigger] units_from_bytes(t.dtype, b)[i] == t.data[i] by {
                let x = t.data[i];
                assert(x <= 0xFF);
                assert(b[i] == x as u8);
                assert((x as u8) as u64 == x) by (bit_vector)
                    requires
                        x <= 0xFF,
                ;
            }
        }
    }
}

/// For 16-, 32- and 64-bit types, the bytes of a tensor are `native_width`
/// per element, and reading them back in the order they were written in
/// (least or most significant byte first, as the machine does) gives its
/// elements again.
pub proof fn law_wide_bytes_roundtrip(t: TensorView)
    requires
        native_width(t.dtype) > 0,
        forall|i: int| 0 <= i < t.data.len() ==> #[trigger] t.data[i] <= elem_max(t.dtype),
    ensures
        le_bytes(t.data, native_width(t.dtype)).len() == native_width(t.dtype) * t.data.len(),
        be_bytes(t.data, native_width(t.dtype)).len() == native_width(t.dtype) * t.data.len(),
        le_units(le_bytes(t.data, native_width(t.dtype)), native_width(t.dtype)) == t.data,
        be_units(be_bytes(t.data, native_width(t.dtype)), native_width(t.dtype)) == t.data,
{
    let w = native_width(t.dtype);
    assert(t.data.len() * w == w * t.data.len()) by (nonlinear_arith);
    reveal_with_fuel(byte_place, 9);
    assert(byte_place(2) == 0x1_0000);
    assert(byte_place(4) == 0x1_0000_0000);
    assert(byte_place(8) == 0x1_0000_0000_0000_0000);
    assert forall|i: int| 0 <= i < t.data.len() implies (#[trigger] t.data[i] as int) < byte_place(w) as int by {
        assert(t.data[i] <= elem_max(t.dtype));
    }
    lemma_units_roundtrip(t.data, w);
}

} // verus!
