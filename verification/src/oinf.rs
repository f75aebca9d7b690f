//! Byte-level readers of the `.oinf` model file format: little-endian
//! integers, length-prefixed strings padded to eight bytes, and the errors a
//! malformed file produces.
use vstd::prelude::*;
use vstd::slice::*;
use vstd::utf8::*;

verus! {

/// Everything that makes a `.oinf` file unreadable.
#[derive(Clone, Copy, Debug, PartialEq, Eq, Structural)]
pub enum LoadError {
    FileTooSmall,
    BadMagic,
    UnsupportedVersion(u32),
    FileSizeMismatch,
    OffsetsNotAscending,
    OffsetNotAligned,
    OffsetOutOfBounds,
    UnexpectedEof,
    InvalidUtf8,
    DuplicateSizevar,
    DuplicateMetadataKey,
    MetadataFlagsNonZero,
    MetadataOffsetNotAligned,
    MetadataOffsetOverflow,
    MetadataOutOfBounds,
    MetadataInvalidElementType,
    DuplicateTensorName,
    UnsupportedDtype(u32),
    UnknownDtype(u32),
    TensorFlagsUnsupported,
    TensorDataNotAligned,
    TensorDataBeforeSection,
    TensorDataOutOfBounds,
    TensorDataWithoutFlag,
    QuantNotAligned,
    QuantBeforeSection,
    QuantOutOfBounds,
    QuantWithoutFlag,
    QuantTooSmall,
    QuantOverflow,
    QuantCountOverflow,
    QuantReservedNonZero,
    QuantSizeMismatch,
    QuantInvalidScheme,
    QuantInvalidScaleMode,
    QuantPerTensorScaleShape,
    QuantScaleAxisOutOfRange,
    QuantScaleCountMismatch,
    QuantInvalidZeroPointMode,
    QuantZeroPointNoneCount,
    QuantPerTensorZeroPointNeedsPerTensorScale,
    QuantPerTensorZeroPointShape,
    QuantPerChannelZeroPointNeedsPerChannelScale,
    QuantZeroPointAxisOutOfRange,
    QuantZeroPointAxisMismatch,
    QuantZeroPointCountMismatch,
    QuantSymmetricWithZeroPoint,
    UnknownVariable,
    NoData,
    MissingDataRange,
    MetadataIsString,
    MetadataStringTooSmall,
    MetadataStringOutOfBounds,
    MetadataStringPaddingOutOfBounds,
    InvalidDims,
    DimExceedsUsize,
    ByteLengthMismatch,
    UnknownSize,
}

/// Little-endian `u32` at byte offset `off`.
pub open spec fn le_u32(s: Seq<u8>, off: int) -> u32 {
    (s[off] as int + s[off + 1] as int * 0x100 + s[off + 2] as int * 0x1_0000 + s[off + 3] as int
        * 0x100_0000) as u32
}

/// Little-endian `u64` at byte offset `off`.
pub open spec fn le_u64(s: Seq<u8>, off: int) -> u64 {
    (le_u32(s, off) as int + le_u32(s, off + 4) as int * 0x1_0000_0000) as u64
}

/// Little-endian `u16` at byte offset `off`.
pub open spec fn le_u16(s: Seq<u8>, off: int) -> u16 {
    (s[off] as int + s[off + 1] as int * 0x100) as u16
}

/// Smallest multiple of `alignment` not below `value`.
pub open spec fn align_up_spec(value: int, alignment: int) -> int {
    (value + alignment - 1) / alignment * alignment
}

/// `value` rounded up to a multiple of `alignment`.
pub fn align_up(value: usize, alignment: usize) -> (r: usize)
    requires
        alignment > 0,
        value + alignment - 1 <= usize::MAX,
    ensures
        r == align_up_spec(value as int, alignment as int),
        r >= value,
        r % alignment == 0,
        r < value + alignment,
{
    let q = (value + (alignment - 1)) / alignment;
    proof {
        let v = value as int;
        let a = alignment as int;
        let t = v + a - 1;
        assert(q * a <= t) by (nonlinear_arith)
            requires
                q == t / a,
                a > 0,
                t >= 0,
        ;
        assert(t - q * a < a) by (nonlinear_arith)
            requires
                q == t / a,
                a > 0,
                t >= 0,
        ;
        assert((q * a) % a == 0) by (nonlinear_arith)
            requires
                a > 0,
                q >= 0,
        ;
    }
    q * alignment
}

/// `value` rounded up to a multiple of `alignment`, in `u64`.
pub fn align_up_u64(value: u64, alignment: u64) -> (r: u64)
    requires
        alignment > 0,
        value + alignment - 1 <= u64::MAX,
    ensures
        r == align_up_spec(value as int, alignment as int),
        r >= value,
        r % alignment == 0,
        r < value + alignment,
{
    let q = (value + (alignment - 1)) / alignment;
    proof {
        let v = value as int;
        let a = alignment as int;
        let t = v + a - 1;
        assert(q * a <= t) by (nonlinear_arith)
            requires
                q == t / a,
                a > 0,
                t >= 0,
        ;
        assert(t - q * a < a) by (nonlinear_arith)
            requires
                q == t / a,
                a > 0,
                t >= 0,
        ;
        assert((q * a) % a == 0) by (nonlinear_arith)
            requires
                a > 0,
                q >= 0,
        ;
    }
    q * alignment
}

/// Little-endian `u32` read from `data[offset..offset + 4]`.
pub fn read_u32_at(data: &[u8], offset: usize) -> (r: Result<u32, LoadError>)
    ensures
        offset + 4 > data@.len() ==> r == Err::<u32, LoadError>(LoadError::UnexpectedEof),
        offset + 4 <= data@.len() ==> r == Ok::<u32, LoadError>(le_u32(data@, offset as int)),
        r is Ok <==> offset + 4 <= data@.len(),
{
    if offset > data.len() || data.len() - offset < 4 {
        return Err(LoadError::UnexpectedEof);
    }
    let v = data[offset] as u32 + data[offset + 1] as u32 * 0x100 + data[offset + 2] as u32
        * 0x1_0000 + data[offset + 3] as u32 * 0x100_0000;
    Ok(v)
}

/// Little-endian `u64` read from `data[offset..offset + 8]`.
pub fn read_u64_at(data: &[u8], offset: usize) -> (r: Result<u64, LoadError>)
    ensures
        offset + 8 > data@.len() ==> r == Err::<u64, LoadError>(LoadError::UnexpectedEof),
        offset + 8 <= data@.len() ==> r == Ok::<u64, LoadError>(le_u64(data@, offset as int)),
        r is Ok <==> offset + 8 <= data@.len(),
{
    if offset > data.len() || data.len() - offset < 8 {
        return Err(LoadError::UnexpectedEof);
    }
    let lo = read_u32_at(data, offset);
    let hi = read_u32_at(data, offset + 4);
    match (lo, hi) {
        (Ok(lo), Ok(hi)) => Ok(lo as u64 + hi as u64 * 0x1_0000_0000),
        _ => Err(LoadError::UnexpectedEof),
    }
}

/// Little-endian `u32` at the cursor; the cursor moves past it.
pub fn read_u32(data: &[u8], cursor: &mut usize) -> (r: Result<u32, LoadError>)
    ensures
        *old(cursor) + 4 > data@.len() ==> r == Err::<u32, LoadError>(LoadError::UnexpectedEof),
        *old(cursor) + 4 <= data@.len() ==> r == Ok::<u32, LoadError>(
            le_u32(data@, *old(cursor) as int),
        ) && *final(cursor) == *old(cursor) + 4,
{
    let r = read_u32_at(data, *cursor);
    if *cursor <= data.len() && data.len() - *cursor >= 4 {
        *cursor = *cursor + 4;
    }
    r
}

/// Little-endian `u64` at the cursor; the cursor moves past it.
pub fn read_u64(data: &[u8], cursor: &mut usize) -> (r: Result<u64, LoadError>)
    ensures
        *old(cursor) + 8 > data@.len() ==> r == Err::<u64, LoadError>(LoadError::UnexpectedEof),
        *old(cursor) + 8 <= data@.len() ==> r == Ok::<u64, LoadError>(
            le_u64(data@, *old(cursor) as int),
        ) && *final(cursor) == *old(cursor) + 8,
{
    let r = read_u64_at(data, *cursor);
    if *cursor <= data.len() && data.len() - *cursor >= 8 {
        *cursor = *cursor + 8;
    }
    r
}

/// `len` bytes at the cursor; the cursor moves past them.
pub fn read_bytes<'a>(data: &'a [u8], cursor: &mut usize, len: usize) -> (r: Result<
    &'a [u8],
    LoadError,
>)
    ensures
        *old(cursor) + len > data@.len() ==> r is Err && r == Err::<&[u8], LoadError>(
            LoadError::UnexpectedEof,
        ),
        *old(cursor) + len <= data@.len() ==> r is Ok && r.unwrap()@ == data@.subrange(
            *old(cursor) as int,
            *old(cursor) + len,
        ) && *final(cursor) == *old(cursor) + len,
{
    if *cursor > data.len() || data.len() - *cursor < len {
        return Err(LoadError::UnexpectedEof);
    }
    let out = slice_subrange(data, *cursor, *cursor + len);
    *cursor = *cursor + len;
    Ok(out)
}

/// UTF-8 decoding of `bytes` into an owned string.
///
/// Calls `std::str::from_utf8`. Trusted: it fails exactly on byte strings that
/// are not valid UTF-8 (as `vstd::utf8::valid_utf8` defines validity), and on
/// success the characters are the UTF-8 decoding of the bytes.
#[verifier::external_body]
pub(crate) fn utf8_string(bytes: &[u8]) -> (r: Option<String>)
    ensures
        r is Some <==> valid_utf8(bytes@),
        r matches Some(s) ==> s@ == decode_utf8(bytes@),
{
    match std::str::from_utf8(bytes) {
        Ok(s) => Some(s.to_string()),
        Err(_) => None,
    }
}

/// A length-prefixed, 8-byte padded UTF-8 string at `cursor`, with the cursor
/// just past its padding.
pub open spec fn read_string_spec(d: Seq<u8>, c: int) -> Result<(Seq<char>, int), LoadError> {
    if c + 4 > d.len() {
        Err(LoadError::UnexpectedEof)
    } else {
        let len = le_u32(d, c) as int;
        let c1 = c + 4;
        if c1 + len > d.len() {
            Err(LoadError::UnexpectedEof)
        } else {
            let bytes = d.subrange(c1, c1 + len);
            if !valid_utf8(bytes) {
                Err(LoadError::InvalidUtf8)
            } else {
                let padded = align_up_spec(4 + len, 8);
                let end = c + padded;
                if end > d.len() {
                    Err(LoadError::UnexpectedEof)
                } else {
                    Ok((decode_utf8(bytes), end))
                }
            }
        }
    }
}

/// A length-prefixed, 8-byte padded UTF-8 string; the cursor moves past it.
pub fn read_string(data: &[u8], cursor: &mut usize) -> (r: Result<String, LoadError>)
    requires
        *old(cursor) <= data@.len(),
    ensures
        match read_string_spec(data@, *old(cursor) as int) {
            Ok((s, c)) => r matches Ok(rs) && rs@ == s && *final(cursor) == c,
            Err(e) => r == Err::<String, LoadError>(e),
        },
{
    let ghost c0 = *cursor as int;
    let len = read_u32(data, cursor)?;
    let len = len as usize;
    let bytes = read_bytes(data, cursor, len)?;
    let s = match utf8_string(bytes) {
        Some(s) => s,
        None => return Err(LoadError::InvalidUtf8),
    };
    let consumed = 4 + len as u64;
    let padded = align_up_u64(consumed, 8);
    let skip = padded - consumed;
    if skip > data.len() as u64 - *cursor as u64 {
        return Err(LoadError::UnexpectedEof);
    }
    *cursor = *cursor + skip as usize;
    Ok(s)
}

} // verus!
