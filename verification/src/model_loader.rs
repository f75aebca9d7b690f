//! The `.oinf` model file: header, size variables, metadata entries and
//! tensor records, parsed from the file's bytes.
use vstd::prelude::*;
use vstd::hash_map::StringHashMap;
use crate::dtype::{bits_of, packed, storage_units, DType};
use crate::tensor::{numel, numel_exec, shape_fits, shape_fits_exec, TensorValue, TensorView};
use crate::oinf::{
    align_up_spec, le_u16, le_u32, le_u64, utf8_string, read_string, read_string_spec, read_u32, read_u32_at, read_u64, read_u64_at,
    LoadError,
};
use crate::quant::{parse_quant_params, quant_spec, QuantParams, QuantView};
use crate::text::{
    first_index_of, parse_usize, parse_usize_spec, split_once_char, trim, trim_str,
};

verus! {

pub const VT_I8: u32 = 1;
pub const VT_I16: u32 = 2;
pub const VT_I32: u32 = 3;
pub const VT_I64: u32 = 4;
pub const VT_U8: u32 = 5;
pub const VT_U16: u32 = 6;
pub const VT_U32: u32 = 7;
pub const VT_U64: u32 = 8;
pub const VT_F16: u32 = 9;
pub const VT_F32: u32 = 10;
pub const VT_F64: u32 = 11;
pub const VT_BOOL: u32 = 12;
pub const VT_BITSET: u32 = 13;
pub const VT_STRING: u32 = 14;
pub const VT_NDARRAY: u32 = 15;
pub const VT_BF16: u32 = 16;
pub const VT_F8: u32 = 17;
pub const VT_I4: u32 = 18;
pub const VT_U4: u32 = 21;

/// Size of the fixed file header in bytes.
pub const HEADER_SIZE: usize = 69;

/// The value-type codes of the file format.
pub struct ValueType;

/// Element type named by a value-type code.
pub open spec fn to_dtype_spec(v: u32) -> Result<DType, LoadError> {
    if v == VT_I8 {
        Ok(DType::I8)
    } else if v == VT_I16 {
        Ok(DType::I16)
    } else if v == VT_I32 {
        Ok(DType::I32)
    } else if v == VT_I64 {
        Ok(DType::I64)
    } else if v == VT_U8 {
        Ok(DType::U8)
    } else if v == VT_U16 {
        Ok(DType::U16)
    } else if v == VT_U32 {
        Ok(DType::U32)
    } else if v == VT_U64 {
        Ok(DType::U64)
    } else if v == VT_F16 {
        Ok(DType::F16)
    } else if v == VT_F32 {
        Ok(DType::F32)
    } else if v == VT_F64 {
        Ok(DType::F64)
    } else if v == VT_BOOL {
        Ok(DType::Bool)
    } else if v == VT_BITSET {
        Err(LoadError::UnsupportedDtype(v))
    } else if v == VT_BF16 {
        Ok(DType::BF16)
    } else if v == VT_F8 {
        Ok(DType::F8)
    } else if v == VT_I4 {
        Ok(DType::I4)
    } else if v == VT_U4 {
        Ok(DType::U4)
    } else {
        Err(LoadError::UnknownDtype(v))
    }
}

/// The value-type code the file format writes for an element type; none
/// for the types it has no code for.
pub open spec fn value_type_of(d: DType) -> Option<u32> {
    match d {
        DType::I8 => Some(VT_I8),
        DType::I16 => Some(VT_I16),
        DType::I32 => Some(VT_I32),
        DType::I64 => Some(VT_I64),
        DType::U8 => Some(VT_U8),
        DType::U16 => Some(VT_U16),
        DType::U32 => Some(VT_U32),
        DType::U64 => Some(VT_U64),
        DType::F16 => Some(VT_F16),
        DType::BF16 => Some(VT_BF16),
        DType::F8 => Some(VT_F8),
        DType::F32 => Some(VT_F32),
        DType::F64 => Some(VT_F64),
        DType::Bool => Some(VT_BOOL),
        DType::I4 => Some(VT_I4),
        DType::U4 => Some(VT_U4),
        _ => None,
    }
}

/// Reading a value-type code and writing an element type are inverse: a
/// code reads as the element type whose code it is, and every element type
/// with a code reads back from it. So no two codes read as one type.
pub proof fn law_value_types_name_their_dtype(v: u32, d: DType)
    ensures
        to_dtype_spec(v) == Ok::<DType, LoadError>(d) ==> value_type_of(d) == Some(v),
        value_type_of(d) == Some(v) ==> to_dtype_spec(v) == Ok::<DType, LoadError>(d),
{
}

/// A code reads as an element type of the width the format gives it:
/// eight-bit codes as one byte, 16-bit codes as two, 32-bit as four and
/// 64-bit as eight (packed codes as under a byte).
pub proof fn law_value_type_widths(v: u32)
    ensures
        v == VT_I8 || v == VT_U8 || v == VT_F8 || v == VT_BOOL ==> bits_of(to_dtype_spec(v)->Ok_0) == 8,
        v == VT_I16 || v == VT_U16 || v == VT_F16 || v == VT_BF16 ==> bits_of(to_dtype_spec(v)->Ok_0) == 16,
        v == VT_I32 || v == VT_U32 || v == VT_F32 ==> bits_of(to_dtype_spec(v)->Ok_0) == 32,
        v == VT_I64 || v == VT_U64 || v == VT_F64 ==> bits_of(to_dtype_spec(v)->Ok_0) == 64,
        v == VT_I4 || v == VT_U4 ==> bits_of(to_dtype_spec(v)->Ok_0) == 4,
{
}

impl ValueType {
    /// Codes that name a single element type (as opposed to strings and arrays).
    pub open spec fn is_scalar_spec(value_type: u32) -> bool {
        VT_I8 <= value_type && value_type <= VT_U4
    }

    /// Whether `value_type` lies in the range of element-type codes.
    pub fn is_scalar(value_type: u32) -> (r: bool)
        ensures
            r == Self::is_scalar_spec(value_type),
    {
        value_type >= VT_I8 && value_type <= VT_U4
    }

    /// Element type named by a value-type code.
    pub fn to_dtype(value_type: u32) -> (r: Result<DType, LoadError>)
        ensures
            r == to_dtype_spec(value_type),
    {
        if value_type == VT_I8 {
            Ok(DType::I8)
        } else if value_type == VT_I16 {
            Ok(DType::I16)
        } else if value_type == VT_I32 {
            Ok(DType::I32)
        } else if value_type == VT_I64 {
            Ok(DType::I64)
        } else if value_type == VT_U8 {
            Ok(DType::U8)
        } else if value_type == VT_U16 {
            Ok(DType::U16)
        } else if value_type == VT_U32 {
            Ok(DType::U32)
        } else if value_type == VT_U64 {
            Ok(DType::U64)
        } else if value_type == VT_F16 {
            Ok(DType::F16)
        } else if value_type == VT_F32 {
            Ok(DType::F32)
        } else if value_type == VT_F64 {
            Ok(DType::F64)
        } else if value_type == VT_BOOL {
            Ok(DType::Bool)
        } else if value_type == VT_BITSET {
            Err(LoadError::UnsupportedDtype(value_type))
        } else if value_type == VT_BF16 {
            Ok(DType::BF16)
        } else if value_type == VT_F8 {
            Ok(DType::F8)
        } else if value_type == VT_I4 {
            Ok(DType::I4)
        } else if value_type == VT_U4 {
            Ok(DType::U4)
        } else {
            Err(LoadError::UnknownDtype(value_type))
        }
    }
}

/// The fixed header fields that the rest of the file hangs on.
#[derive(Clone, Copy, Debug, PartialEq, Eq, Structural)]
pub struct Header {
    pub n_sizevars: u32,
    pub n_metadata: u32,
    pub n_tensors: u32,
    pub offset_sizevars: u64,
    pub offset_metadata: u64,
    pub offset_tensors: u64,
    pub offset_data: u64,
    pub file_size: u64,
}

/// The file's magic bytes, `OINF\0`.
pub open spec fn magic() -> Seq<u8> {
    seq![0x4Fu8, 0x49u8, 0x4Eu8, 0x46u8, 0x00u8]
}

/// The 69-byte header: magic, version 2, flags, the three entry counts, a
/// reserved word, then the offsets of the size-variable, metadata, tensor and
/// data sections and the file size as `u64`. The offsets must ascend to the
/// file size, which must be the file's length, and be multiples of eight.
pub open spec fn header_spec(d: Seq<u8>) -> Result<Header, LoadError> {
    if d.len() < 69 {
        Err(LoadError::FileTooSmall)
    } else if d.subrange(0, 5) != magic() {
        Err(LoadError::BadMagic)
    } else if le_u32(d, 5) != 2 {
        Err(LoadError::UnsupportedVersion(le_u32(d, 5)))
    } else {
        let h = Header {
            n_sizevars: le_u32(d, 13),
            n_metadata: le_u32(d, 17),
            n_tensors: le_u32(d, 21),
            offset_sizevars: le_u64(d, 29),
            offset_metadata: le_u64(d, 37),
            offset_tensors: le_u64(d, 45),
            offset_data: le_u64(d, 53),
            file_size: le_u64(d, 61),
        };
        if h.file_size != d.len() {
            Err(LoadError::FileSizeMismatch)
        } else if !(h.offset_sizevars <= h.offset_metadata && h.offset_metadata <= h.offset_tensors
            && h.offset_tensors <= h.offset_data && h.offset_data <= h.file_size) {
            Err(LoadError::OffsetsNotAscending)
        } else if h.offset_sizevars % 8 != 0 || h.offset_metadata % 8 != 0 || h.offset_tensors % 8
            != 0 || h.offset_data % 8 != 0 {
            Err(LoadError::OffsetNotAligned)
        } else {
            Ok(h)
        }
    }
}

/// Read and check the file header.
pub fn parse_header(data: &[u8]) -> (r: Result<Header, LoadError>)
    ensures
        r == header_spec(data@),
{
    if data.len() < HEADER_SIZE {
        return Err(LoadError::FileTooSmall);
    }
    let mut cursor: usize = 0;
    if !(data[0] == 0x4F && data[1] == 0x49 && data[2] == 0x4E && data[3] == 0x46 && data[4]
        == 0x00) {
        proof {
            if data@.subrange(0, 5) == magic() {
                assert(data@.subrange(0, 5)[0] == data@[0]);
                assert(data@.subrange(0, 5)[1] == data@[1]);
                assert(data@.subrange(0, 5)[2] == data@[2]);
                assert(data@.subrange(0, 5)[3] == data@[3]);
                assert(data@.subrange(0, 5)[4] == data@[4]);
            }
        }
        return Err(LoadError::BadMagic);
    }
    assert(data@.subrange(0, 5) =~= magic());
    cursor = 5;
    let version = read_u32(data, &mut cursor)?;
    if version != 2 {
        return Err(LoadError::UnsupportedVersion(version));
    }
    let _flags = read_u32(data, &mut cursor)?;
    let n_sizevars = read_u32(data, &mut cursor)?;
    let n_metadata = read_u32(data, &mut cursor)?;
    let n_tensors = read_u32(data, &mut cursor)?;
    let _reserved = read_u32(data, &mut cursor)?;
    let offset_sizevars = read_u64(data, &mut cursor)?;
    let offset_metadata = read_u64(data, &mut cursor)?;
    let offset_tensors = read_u64(data, &mut cursor)?;
    let offset_data = read_u64(data, &mut cursor)?;
    let file_size = read_u64(data, &mut cursor)?;
    if file_size != data.len() as u64 {
        return Err(LoadError::FileSizeMismatch);
    }
    if !(offset_sizevars <= offset_metadata && offset_metadata <= offset_tensors && offset_tensors
        <= offset_data && offset_data <= file_size) {
        return Err(LoadError::OffsetsNotAscending);
    }
    if offset_sizevars % 8 != 0 {
        return Err(LoadError::OffsetNotAligned);
    }
    if offset_sizevars > file_size {
        return Err(LoadError::OffsetOutOfBounds);
    }
    if offset_metadata % 8 != 0 {
        return Err(LoadError::OffsetNotAligned);
    }
    if offset_metadata > file_size {
        return Err(LoadError::OffsetOutOfBounds);
    }
    if offset_tensors % 8 != 0 {
        return Err(LoadError::OffsetNotAligned);
    }
    if offset_tensors > file_size {
        return Err(LoadError::OffsetOutOfBounds);
    }
    if offset_data % 8 != 0 {
        return Err(LoadError::OffsetNotAligned);
    }
    if offset_data > file_size {
        return Err(LoadError::OffsetOutOfBounds);
    }
    Ok(
        Header {
            n_sizevars,
            n_metadata,
            n_tensors,
            offset_sizevars,
            offset_metadata,
            offset_tensors,
            offset_data,
            file_size,
        },
    )
}

/// The `n` size variables from `start` on, each a name and a `u64` value:
/// the values by name, and the position after the last.
pub open spec fn sizevars_spec(d: Seq<u8>, start: int, n: nat) -> Result<
    (Map<Seq<char>, usize>, int),
    LoadError,
>
    decreases n,
{
    if n == 0 {
        Ok((Map::empty(), start))
    } else {
        match sizevars_spec(d, start, (n - 1) as nat) {
            Err(e) => Err(e),
            Ok((m, c)) => match read_string_spec(d, c) {
                Err(e) => Err(e),
                Ok((name, c1)) => if m.contains_key(name) {
                    Err(LoadError::DuplicateSizevar)
                } else if c1 + 8 > d.len() {
                    Err(LoadError::UnexpectedEof)
                } else {
                    Ok((m.insert(name, le_u64(d, c1) as usize), c1 + 8))
                },
            },
        }
    }
}

proof fn lemma_sizevars_cursor(d: Seq<u8>, start: int, n: nat)
    requires
        0 <= start <= d.len(),
    ensures
        sizevars_spec(d, start, n) matches Ok((m, c)) ==> start <= c <= d.len(),
    decreases n,
{
    if n > 0 {
        lemma_sizevars_cursor(d, start, (n - 1) as nat);
    }
}

proof fn lemma_sizevars_err(d: Seq<u8>, start: int, i: nat, n: nat)
    requires
        i <= n,
        sizevars_spec(d, start, i) is Err,
    ensures
        sizevars_spec(d, start, n) == sizevars_spec(d, start, i),
    decreases n - i,
{
    if i < n {
        lemma_sizevars_err(d, start, i, (n - 1) as nat);
    }
}

/// Read the `n` size variables that start at `start`.
pub fn parse_sizevars(data: &[u8], start: usize, n: u32) -> (r: Result<
    (StringHashMap<usize>, usize),
    LoadError,
>)
    requires
        start <= data@.len(),
    ensures
        match sizevars_spec(data@, start as int, n as nat) {
            Ok((m, c)) => r matches Ok((rm, rc)) && rm@ == m && rc == c,
            Err(e) => r matches Err(re) && re == e,
        },
{
    let dlen = data.len();
    let mut sizes: StringHashMap<usize> = StringHashMap::new();
    let mut cursor = start;
    let mut i: u32 = 0;
    while i < n
        invariant
            i <= n,
            start <= cursor <= data@.len(),
            dlen == data@.len(),
            sizevars_spec(data@, start as int, i as nat) == Ok::<
                (Map<Seq<char>, usize>, int),
                LoadError,
            >((sizes@, cursor as int)),
        decreases n - i,
    {
        let ghost c0 = cursor;
        let name = match read_string(data, &mut cursor) {
            Ok(name) => name,
            Err(e) => {
                proof {
                    lemma_sizevars_err(data@, start as int, (i + 1) as nat, n as nat);
                }
                return Err(e);
            },
        };
        if sizes.contains_key(name.as_str()) {
            proof {
                lemma_sizevars_err(data@, start as int, (i + 1) as nat, n as nat);
            }
            return Err(LoadError::DuplicateSizevar);
        }
        let value = match read_u64_at(data, cursor) {
            Ok(v) => v,
            Err(e) => {
                proof {
                    lemma_sizevars_err(data@, start as int, (i + 1) as nat, n as nat);
                }
                return Err(e);
            },
        };
        cursor = cursor + 8;
        sizes.insert(name, #[verifier::truncate] (value as usize));
        i = i + 1;
    }
    Ok((sizes, cursor))
}

/// Where a metadata value lies and, for arrays, its dimensions.
#[derive(Clone, Debug)]
pub struct MetadataInfo {
    pub value_type: u32,
    pub value_offset: u64,
    pub value_nbytes: u64,
    pub dims: Vec<u64>,
}

pub struct MetadataView {
    pub value_type: u32,
    pub value_offset: u64,
    pub value_nbytes: u64,
    pub dims: Seq<u64>,
}

impl View for MetadataInfo {
    type V = MetadataView;

    open spec fn view(&self) -> MetadataView {
        MetadataView {
            value_type: self.value_type,
            value_offset: self.value_offset,
            value_nbytes: self.value_nbytes,
            dims: self.dims@,
        }
    }
}

/// The `count` little-endian `u64` words of `d` starting at byte `start`.
pub open spec fn u64_words(d: Seq<u8>, start: int, count: int) -> Seq<u64> {
    Seq::new(count as nat, |i: int| le_u64(d, start + 8 * i))
}

/// Dimensions of an array value at `off`: an element-type code that must name
/// an element type, a dimension count, then the dimensions as `u64`.
pub open spec fn ndarray_dims_spec(d: Seq<u8>, off: int) -> Result<Seq<u64>, LoadError> {
    if off + 8 > d.len() {
        Err(LoadError::UnexpectedEof)
    } else if !ValueType::is_scalar_spec(le_u32(d, off)) {
        Err(LoadError::MetadataInvalidElementType)
    } else if off + 8 + 8 * le_u32(d, off + 4) > d.len() {
        Err(LoadError::UnexpectedEof)
    } else {
        Ok(u64_words(d, off + 8, le_u32(d, off + 4) as int))
    }
}

/// One metadata entry at `c`: a key not in `m`, then value type, flags (zero),
/// value size and value offset (aligned, inside the file).
pub open spec fn meta_entry_spec(d: Seq<u8>, c: int, m: Map<Seq<char>, MetadataView>) -> Result<
    (Seq<char>, MetadataView, int),
    LoadError,
> {
    match read_string_spec(d, c) {
        Err(e) => Err(e),
        Ok((key, c1)) => if m.contains_key(key) {
            Err(LoadError::DuplicateMetadataKey)
        } else if c1 + 24 > d.len() {
            Err(LoadError::UnexpectedEof)
        } else {
            let vt = le_u32(d, c1);
            let flags = le_u32(d, c1 + 4);
            let nb = le_u64(d, c1 + 8);
            let off = le_u64(d, c1 + 16);
            if flags != 0 {
                Err(LoadError::MetadataFlagsNonZero)
            } else if off % 8 != 0 {
                Err(LoadError::MetadataOffsetNotAligned)
            } else if off + nb > u64::MAX {
                Err(LoadError::MetadataOffsetOverflow)
            } else if off + nb > d.len() {
                Err(LoadError::MetadataOutOfBounds)
            } else if vt == VT_NDARRAY {
                match ndarray_dims_spec(d, off as int) {
                    Err(e) => Err(e),
                    Ok(dims) => Ok(
                        (
                            key,
                            MetadataView {
                                value_type: vt,
                                value_offset: off,
                                value_nbytes: nb,
                                dims,
                            },
                            c1 + 24,
                        ),
                    ),
                }
            } else {
                Ok(
                    (
                        key,
                        MetadataView {
                            value_type: vt,
                            value_offset: off,
                            value_nbytes: nb,
                            dims: Seq::empty(),
                        },
                        c1 + 24,
                    ),
                )
            }
        },
    }
}

/// The `n` metadata entries from `start` on, by key, and the position after
/// the last.
pub open spec fn metadata_spec(d: Seq<u8>, start: int, n: nat) -> Result<
    (Map<Seq<char>, MetadataView>, int),
    LoadError,
>
    decreases n,
{
    if n == 0 {
        Ok((Map::empty(), start))
    } else {
        match metadata_spec(d, start, (n - 1) as nat) {
            Err(e) => Err(e),
            Ok((m, c)) => match meta_entry_spec(d, c, m) {
                Err(e) => Err(e),
                Ok((key, info, c1)) => Ok((m.insert(key, info), c1)),
            },
        }
    }
}

proof fn lemma_metadata_err(d: Seq<u8>, start: int, i: nat, n: nat)
    requires
        i <= n,
        metadata_spec(d, start, i) is Err,
    ensures
        metadata_spec(d, start, n) == metadata_spec(d, start, i),
    decreases n - i,
{
    if i < n {
        lemma_metadata_err(d, start, i, (n - 1) as nat);
    }
}

/// Read the dimensions of an array value at `off`.
pub fn read_ndarray_dims(data: &[u8], off: usize) -> (r: Result<Vec<u64>, LoadError>)
    ensures
        match ndarray_dims_spec(data@, off as int) {
            Ok(dims) => r matches Ok(v) && v@ == dims,
            Err(e) => r matches Err(re) && re == e,
        },
{
    let dlen = data.len();
    let mut cursor = off;
    let element_type = read_u32(data, &mut cursor)?;
    let ndim = read_u32(data, &mut cursor)?;
    if !ValueType::is_scalar(element_type) {
        return Err(LoadError::MetadataInvalidElementType);
    }
    let mut dims: Vec<u64> = Vec::new();
    let mut i: u32 = 0;
    while i < ndim
        invariant
            i <= ndim,
            dlen == data@.len(),
            off + 8 <= data@.len(),
            ndim == le_u32(data@, off + 4),
            cursor == off + 8 + 8 * i,
            cursor <= data@.len(),
            ValueType::is_scalar_spec(le_u32(data@, off as int)),
            dims@ =~= u64_words(data@, off + 8, i as int),
        decreases ndim - i,
    {
        let v = match read_u64(data, &mut cursor) {
            Ok(v) => v,
            Err(e) => {
                assert(off + 8 + 8 * (ndim as int) > data@.len());
                return Err(e);
            },
        };
        dims.push(v);
        i = i + 1;
    }
    Ok(dims)
}

/// Read one metadata entry at `cursor`, rejecting keys already in `metadata`.
pub fn parse_meta_entry(data: &[u8], cursor: &mut usize, metadata: &StringHashMap<MetadataInfo>) -> (r: Result<
    (String, MetadataInfo),
    LoadError,
>)
    requires
        *old(cursor) <= data@.len(),
    ensures
        match meta_entry_spec(
            data@,
            *old(cursor) as int,
            metadata@.map_values(|v: MetadataInfo| v@),
        ) {
            Ok((k, info, c)) => r matches Ok((rk, rinfo)) && rk@ == k && rinfo@ == info
                && *final(cursor) == c,
            Err(e) => r matches Err(re) && re == e,
        },
{
    let dlen = data.len();
    let key = read_string(data, cursor)?;
    if metadata.contains_key(key.as_str()) {
        return Err(LoadError::DuplicateMetadataKey);
    }
    let c1 = *cursor;
    let value_type = read_u32_at(data, c1)?;
    let flags = read_u32_at(data, c1 + 4)?;
    let value_nbytes = read_u64_at(data, c1 + 8)?;
    let value_offset = read_u64_at(data, c1 + 16)?;
    *cursor = c1 + 24;
    if flags != 0 {
        return Err(LoadError::MetadataFlagsNonZero);
    }
    if value_offset % 8 != 0 {
        return Err(LoadError::MetadataOffsetNotAligned);
    }
    let value_end = match value_offset.checked_add(value_nbytes) {
        Some(e) => e,
        None => return Err(LoadError::MetadataOffsetOverflow),
    };
    if value_end > dlen as u64 {
        return Err(LoadError::MetadataOutOfBounds);
    }
    let dims = if value_type == VT_NDARRAY {
        read_ndarray_dims(data, value_offset as usize)?
    } else {
        Vec::new()
    };
    proof {
        if value_type != VT_NDARRAY {
            assert(dims@ =~= Seq::<u64>::empty());
        }
    }
    Ok((key, MetadataInfo { value_type, value_offset, value_nbytes, dims }))
}

/// Read the `n` metadata entries that start at `start`.
pub fn parse_metadata(data: &[u8], start: usize, n: u32) -> (r: Result<
    (StringHashMap<MetadataInfo>, usize),
    LoadError,
>)
    requires
        start <= data@.len(),
    ensures
        match metadata_spec(data@, start as int, n as nat) {
            Ok((m, c)) => r matches Ok((rm, rc)) && rm@.map_values(|v: MetadataInfo| v@) == m
                && rc == c,
            Err(e) => r matches Err(re) && re == e,
        },
{
    let dlen = data.len();
    let mut metadata: StringHashMap<MetadataInfo> = StringHashMap::new();
    let mut cursor = start;
    let mut i: u32 = 0;
    assert(metadata@.map_values(|v: MetadataInfo| v@) =~= Map::<Seq<char>, MetadataView>::empty());
    while i < n
        invariant
            i <= n,
            cursor <= data@.len(),
            dlen == data@.len(),
            metadata_spec(data@, start as int, i as nat) == Ok::<
                (Map<Seq<char>, MetadataView>, int),
                LoadError,
            >((metadata@.map_values(|v: MetadataInfo| v@), cursor as int)),
        decreases n - i,
    {
        let ghost old_map = metadata@;
        match parse_meta_entry(data, &mut cursor, &metadata) {
            Ok((key, info)) => {
                proof {
                    assert(old_map.insert(key@, info).map_values(|v: MetadataInfo| v@) =~= old_map.map_values(
                        |v: MetadataInfo| v@,
                    ).insert(key@, info@));
                }
                metadata.insert(key, info);
            },
            Err(e) => {
                proof {
                    lemma_metadata_err(data@, start as int, (i + 1) as nat, n as nat);
                }
                return Err(e);
            },
        }
        i = i + 1;
    }
    Ok((metadata, cursor))
}

/// What the file records of one tensor: element type, dimensions, and where
/// its data lies in the file, if it has any.
#[derive(Clone, Debug)]
pub struct VarInfo {
    pub name: String,
    pub dtype: DType,
    pub dims: Vec<u64>,
    pub value_range: Option<(usize, usize)>,
    pub has_data: bool,
}

pub struct VarInfoView {
    pub name: Seq<char>,
    pub dtype: DType,
    pub dims: Seq<u64>,
    pub value_range: Option<(usize, usize)>,
    pub has_data: bool,
}

impl View for VarInfo {
    type V = VarInfoView;

    open spec fn view(&self) -> VarInfoView {
        VarInfoView {
            name: self.name@,
            dtype: self.dtype,
            dims: self.dims@,
            value_range: self.value_range,
            has_data: self.has_data,
        }
    }
}

pub open spec fn quant_view(q: Option<QuantParams>) -> Option<QuantView> {
    match q {
        Some(p) => Some(p@),
        None => None,
    }
}

/// The fixed fields of a tensor record after its name.
#[derive(Clone, Copy, Debug, PartialEq, Eq, Structural)]
pub struct TensorFields {
    pub dtype_raw: u32,
    pub flags: u32,
    pub data_nbytes: u64,
    pub data_offset: u64,
    pub quant_nbytes: u64,
    pub quant_offset: u64,
}

/// Checks of a tensor record's type, flags and data and quantization ranges
/// against the data section at `offset_data` and the file length `file_size`.
pub open spec fn tensor_checks_spec(f: TensorFields, offset_data: int, file_size: int) -> Result<
    DType,
    LoadError,
> {
    match to_dtype_spec(f.dtype_raw) {
        Err(e) => Err(e),
        Ok(dtype) => {
            let has_data = f.flags & 1 != 0;
            let has_quant = f.flags & 2 != 0;
            if f.flags & !3u32 != 0 {
                Err(LoadError::TensorFlagsUnsupported)
            } else if has_data && f.data_offset % 8 != 0 {
                Err(LoadError::TensorDataNotAligned)
            } else if has_data && f.data_offset < offset_data {
                Err(LoadError::TensorDataBeforeSection)
            } else if has_data && f.data_offset + f.data_nbytes > file_size {
                Err(LoadError::TensorDataOutOfBounds)
            } else if !has_data && (f.data_offset != 0 || f.data_nbytes != 0) {
                Err(LoadError::TensorDataWithoutFlag)
            } else if has_quant && f.quant_offset % 8 != 0 {
                Err(LoadError::QuantNotAligned)
            } else if has_quant && f.quant_offset < offset_data {
                Err(LoadError::QuantBeforeSection)
            } else if has_quant && f.quant_offset + f.quant_nbytes > file_size {
                Err(LoadError::QuantOutOfBounds)
            } else if !has_quant && (f.quant_offset != 0 || f.quant_nbytes != 0) {
                Err(LoadError::QuantWithoutFlag)
            } else {
                Ok(dtype)
            }
        },
    }
}

/// One tensor record at `c`: a name not in `vars`, then element-type code,
/// dimension count and flags (`u32`), the dimensions, then data size, data
/// offset, quantization size and quantization offset (`u64`); flag bit 0
/// marks data and bit 1 quantization.
pub open spec fn tensor_entry_spec(
    d: Seq<u8>,
    c: int,
    vars: Map<Seq<char>, VarInfoView>,
    offset_data: int,
) -> Result<(VarInfoView, Option<QuantView>, int), LoadError> {
    match read_string_spec(d, c) {
        Err(e) => Err(e),
        Ok((name, c1)) => if vars.contains_key(name) {
            Err(LoadError::DuplicateTensorName)
        } else if c1 + 12 > d.len() {
            Err(LoadError::UnexpectedEof)
        } else {
            let ndim = le_u32(d, c1 + 4) as int;
            let c3 = c1 + 12 + 8 * ndim;
            if c3 + 32 > d.len() {
                Err(LoadError::UnexpectedEof)
            } else {
                let dims = u64_words(d, c1 + 12, ndim);
                let f = TensorFields {
                    dtype_raw: le_u32(d, c1),
                    flags: le_u32(d, c1 + 8),
                    data_nbytes: le_u64(d, c3),
                    data_offset: le_u64(d, c3 + 8),
                    quant_nbytes: le_u64(d, c3 + 16),
                    quant_offset: le_u64(d, c3 + 24),
                };
                match tensor_checks_spec(f, offset_data, d.len() as int) {
                    Err(e) => Err(e),
                    Ok(dtype) => if exists|i: int| 0 <= i < ndim && dims[i] > usize::MAX {
                        Err(LoadError::DimExceedsUsize)
                    } else {
                        let has_data = f.flags & 1 != 0;
                        let info = VarInfoView {
                            name,
                            dtype,
                            dims,
                            value_range: if has_data {
                                Some(
                                    (
                                        f.data_offset as usize,
                                        (f.data_offset + f.data_nbytes) as usize,
                                    ),
                                )
                            } else {
                                None
                            },
                            has_data,
                        };
                        let dims_usize = Seq::new(ndim as nat, |i: int| dims[i] as usize);
                        if f.flags & 2 != 0 {
                            match quant_spec(
                                d,
                                f.quant_offset as int,
                                f.quant_nbytes as int,
                                dims_usize,
                            ) {
                                Err(e) => Err(e),
                                Ok(q) => Ok((info, Some(q), c3 + 32)),
                            }
                        } else {
                            Ok((info, None, c3 + 32))
                        }
                    },
                }
            }
        },
    }
}

/// Check a tensor record's fields.
pub fn check_tensor_fields(f: &TensorFields, offset_data: u64, file_size: u64) -> (r: Result<
    DType,
    LoadError,
>)
    ensures
        r == tensor_checks_spec(*f, offset_data as int, file_size as int),
{
    let dtype = ValueType::to_dtype(f.dtype_raw)?;
    let has_data = (f.flags & 1) != 0;
    let has_quant = (f.flags & 2) != 0;
    if f.flags & !3u32 != 0 {
        return Err(LoadError::TensorFlagsUnsupported);
    }
    if has_data {
        if f.data_offset % 8 != 0 {
            return Err(LoadError::TensorDataNotAligned);
        }
        if f.data_offset < offset_data {
            return Err(LoadError::TensorDataBeforeSection);
        }
        if f.data_nbytes > file_size || f.data_offset > file_size - f.data_nbytes {
            return Err(LoadError::TensorDataOutOfBounds);
        }
    } else if f.data_offset != 0 || f.data_nbytes != 0 {
        return Err(LoadError::TensorDataWithoutFlag);
    }
    if has_quant {
        if f.quant_offset % 8 != 0 {
            return Err(LoadError::QuantNotAligned);
        }
        if f.quant_offset < offset_data {
            return Err(LoadError::QuantBeforeSection);
        }
        if f.quant_nbytes > file_size || f.quant_offset > file_size - f.quant_nbytes {
            return Err(LoadError::QuantOutOfBounds);
        }
    } else if f.quant_offset != 0 || f.quant_nbytes != 0 {
        return Err(LoadError::QuantWithoutFlag);
    }
    Ok(dtype)
}

/// Read one tensor record at `cursor`, rejecting names already in `vars`.
#[verifier::loop_isolation(false)]
pub fn parse_tensor_entry(
    data: &[u8],
    cursor: &mut usize,
    vars: &StringHashMap<VarInfo>,
    offset_data: u64,
) -> (r: Result<(VarInfo, Option<QuantParams>), LoadError>)
    requires
        *old(cursor) <= data@.len(),
    ensures
        match tensor_entry_spec(
            data@,
            *old(cursor) as int,
            vars@.map_values(|v: VarInfo| v@),
            offset_data as int,
        ) {
            Ok((info, q, c)) => r matches Ok((rinfo, rq)) && rinfo@ == info && quant_view(rq)
                == q && *final(cursor) == c,
            Err(e) => r matches Err(re) && re == e,
        },
{
    let dlen = data.len();
    let name = read_string(data, cursor)?;
    if vars.contains_key(name.as_str()) {
        return Err(LoadError::DuplicateTensorName);
    }
    let ghost c1 = *cursor as int;
    let dtype_raw = read_u32(data, cursor)?;
    let ndim = read_u32(data, cursor)?;
    let flags = read_u32(data, cursor)?;
    let ghost d = data@;
    let mut dims: Vec<u64> = Vec::new();
    let mut i: u32 = 0;
    while i < ndim
        invariant
            i <= ndim,
            dlen == data@.len(),
            d == data@,
            c1 + 12 <= d.len(),
            ndim == le_u32(d, c1 + 4),
            *cursor == c1 + 12 + 8 * i,
            *cursor <= d.len(),
            dims@ =~= u64_words(d, c1 + 12, i as int),
        decreases ndim - i,
    {
        let v = match read_u64(data, cursor) {
            Ok(v) => v,
            Err(e) => {
                assert(c1 + 12 + 8 * (ndim as int) + 32 > d.len());
                return Err(e);
            },
        };
        dims.push(v);
        i = i + 1;
    }
    let ghost c3 = *cursor as int;
    let data_nbytes = match read_u64(data, cursor) {
        Ok(v) => v,
        Err(e) => return Err(e),
    };
    let data_offset = match read_u64(data, cursor) {
        Ok(v) => v,
        Err(e) => return Err(e),
    };
    let quant_nbytes = match read_u64(data, cursor) {
        Ok(v) => v,
        Err(e) => return Err(e),
    };
    let quant_offset = match read_u64(data, cursor) {
        Ok(v) => v,
        Err(e) => return Err(e),
    };
    let f = TensorFields { dtype_raw, flags, data_nbytes, data_offset, quant_nbytes, quant_offset };
    let dtype = check_tensor_fields(&f, offset_data, dlen as u64)?;
    let has_data = (flags & 1) != 0;
    let has_quant = (flags & 2) != 0;
    let mut dims_usize: Vec<usize> = Vec::new();
    let mut k: usize = 0;
    while k < dims.len()
        invariant
            k <= dims@.len(),
            dims_usize@.len() == k,
            forall|j: int| 0 <= j < k ==> dims@[j] <= usize::MAX && dims_usize@[j] == dims@[j],
        decreases dims@.len() - k,
    {
        if dims[k] > usize::MAX as u64 {
            return Err(LoadError::DimExceedsUsize);
        }
        dims_usize.push(dims[k] as usize);
        k = k + 1;
    }
    let value_range = if has_data {
        Some((data_offset as usize, (data_offset + data_nbytes) as usize))
    } else {
        None
    };
    let quant = if has_quant {
        proof {
            assert(dims_usize@ =~= Seq::new(ndim as nat, |j: int| dims@[j] as usize));
        }
        Some(parse_quant_params(data, quant_offset as usize, quant_nbytes as usize, dims_usize.as_slice())?)
    } else {
        None
    };
    Ok((VarInfo { name, dtype, dims, value_range, has_data }, quant))
}

/// The tensor records from `start` on, by name, with their quantization,
/// and the position after the last.
pub open spec fn tensors_spec(d: Seq<u8>, start: int, n: nat, offset_data: int) -> Result<
    (Map<Seq<char>, VarInfoView>, Map<Seq<char>, Option<QuantView>>, int),
    LoadError,
>
    decreases n,
{
    if n == 0 {
        Ok((Map::empty(), Map::empty(), start))
    } else {
        match tensors_spec(d, start, (n - 1) as nat, offset_data) {
            Err(e) => Err(e),
            Ok((vars, quants, c)) => match tensor_entry_spec(d, c, vars, offset_data) {
                Err(e) => Err(e),
                Ok((info, q, c1)) => Ok((vars.insert(info.name, info), quants.insert(info.name, q), c1)),
            },
        }
    }
}

proof fn lemma_tensors_err(d: Seq<u8>, start: int, i: nat, n: nat, offset_data: int)
    requires
        i <= n,
        tensors_spec(d, start, i, offset_data) is Err,
    ensures
        tensors_spec(d, start, n, offset_data) == tensors_spec(d, start, i, offset_data),
    decreases n - i,
{
    if i < n {
        lemma_tensors_err(d, start, i, (n - 1) as nat, offset_data);
    }
}

/// The quantization of each tensor as a map of views.
pub open spec fn quant_map_view(m: Map<Seq<char>, Option<QuantParams>>) -> Map<Seq<char>, Option<QuantView>> {
    m.map_values(|q: Option<QuantParams>| quant_view(q))
}

/// Read the `n` tensor records that start at `start`.
pub fn parse_tensors(data: &[u8], start: usize, n: u32, offset_data: u64) -> (r: Result<
    (StringHashMap<VarInfo>, StringHashMap<Option<QuantParams>>),
    LoadError,
>)
    requires
        start <= data@.len(),
    ensures
        match tensors_spec(data@, start as int, n as nat, offset_data as int) {
            Ok((vars, quants, c)) => (r matches Ok((rv, rq)) && rv@.map_values(|v: VarInfo| v@) == vars
                && quant_map_view(rq@) == quants),
            Err(e) => r matches Err(re) && re == e,
        },
{
    let mut vars: StringHashMap<VarInfo> = StringHashMap::new();
    let mut quants: StringHashMap<Option<QuantParams>> = StringHashMap::new();
    let mut cursor = start;
    let mut i: u32 = 0;
    assert(vars@.map_values(|v: VarInfo| v@) =~= Map::<Seq<char>, VarInfoView>::empty());
    assert(quant_map_view(quants@) =~= Map::<Seq<char>, Option<QuantView>>::empty());
    while i < n
        invariant
            i <= n,
            cursor <= data@.len(),
            tensors_spec(data@, start as int, i as nat, offset_data as int) == Ok::<
                (Map<Seq<char>, VarInfoView>, Map<Seq<char>, Option<QuantView>>, int),
                LoadError,
            >((vars@.map_values(|v: VarInfo| v@), quant_map_view(quants@), cursor as int)),
        decreases n - i,
    {
        let ghost old_vars = vars@;
        let ghost old_q = quants@;
        match parse_tensor_entry(data, &mut cursor, &vars, offset_data) {
            Ok((info, q)) => {
                let name = info.name.clone();
                let name2 = info.name.clone();
                proof {
                    assert(old_vars.insert(name@, info).map_values(|v: VarInfo| v@) =~= old_vars.map_values(
                        |v: VarInfo| v@,
                    ).insert(info@.name, info@));
                    assert(quant_map_view(old_q.insert(name2@, q)) =~= quant_map_view(old_q).insert(
                        info@.name,
                        quant_view(q),
                    ));
                }
                vars.insert(name, info);
                quants.insert(name2, q);
            },
            Err(e) => {
                proof {
                    lemma_tensors_err(data@, start as int, (i + 1) as nat, n as nat, offset_data as int);
                }
                return Err(e);
            },
        }
        i = i + 1;
    }
    Ok((vars, quants))
}

/// `a * b`, held at `usize::MAX`.
pub open spec fn sat_mul(a: usize, b: usize) -> usize {
    if a * b > usize::MAX {
        usize::MAX
    } else {
        (a * b) as usize
    }
}

/// `a * b`, held at `usize::MAX`.
pub fn mul_saturating(a: usize, b: usize) -> (r: usize)
    ensures
        r == sat_mul(a, b),
{
    match a.checked_mul(b) {
        Some(v) => v,
        None => usize::MAX,
    }
}

/// A dimension term: a decimal number, or the value of a size variable.
pub open spec fn size_term_spec(sizes: Map<Seq<char>, usize>, s: Seq<char>) -> Result<usize, LoadError> {
    match parse_usize_spec(s) {
        Some(v) => Ok(v),
        None => if sizes.contains_key(s) {
            Ok(sizes[s])
        } else {
            Err(LoadError::UnknownSize)
        },
    }
}

/// Value of a dimension expression: a decimal number, a size variable, or
/// the product of two such terms around `*` (held at `usize::MAX`).
pub open spec fn dim_value_spec(sizes: Map<Seq<char>, usize>, dim: Seq<char>) -> Result<usize, LoadError> {
    match parse_usize_spec(dim) {
        Some(v) => Ok(v),
        None => {
            let t = trim(dim);
            match first_index_of(t, '*') {
                Some(i) => match size_term_spec(sizes, trim(t.subrange(0, i))) {
                    Err(e) => Err(e),
                    Ok(l) => match size_term_spec(sizes, trim(t.subrange(i + 1, t.len() as int))) {
                        Err(e) => Err(e),
                        Ok(r) => Ok(sat_mul(l, r)),
                    },
                },
                None => if sizes.contains_key(t) {
                    Ok(sizes[t])
                } else {
                    Err(LoadError::UnknownSize)
                },
            }
        },
    }
}

/// A number, or the value of the named size variable.
fn size_term(sizes: &StringHashMap<usize>, s: &str) -> (r: Result<usize, LoadError>)
    ensures
        r == size_term_spec(sizes@, s@),
{
    match parse_usize(s) {
        Some(v) => Ok(v),
        None => match sizes.get(s) {
            Some(v) => Ok(*v),
            None => Err(LoadError::UnknownSize),
        },
    }
}

/// Resolve one dimension expression against the size variables.
pub fn resolve_dim_value(sizes: &StringHashMap<usize>, dim: &str) -> (r: Result<usize, LoadError>)
    ensures
        r == dim_value_spec(sizes@, dim@),
{
    if let Some(v) = parse_usize(dim) {
        return Ok(v);
    }
    let trimmed = trim_str(dim);
    match split_once_char(trimmed, '*') {
        Some((left, right)) => {
            let l = size_term(sizes, trim_str(left))?;
            let r = size_term(sizes, trim_str(right))?;
            Ok(mul_saturating(l, r))
        },
        None => match sizes.get(trimmed) {
            Some(v) => Ok(*v),
            None => Err(LoadError::UnknownSize),
        },
    }
}

/// Position of the first dimension expression that does not resolve.
pub open spec fn first_bad_dim(sizes: Map<Seq<char>, usize>, dims: Seq<String>) -> int {
    choose|i: int|
        0 <= i < dims.len() && dim_value_spec(sizes, (#[trigger] dims[i])@) is Err && forall|j: int|
            0 <= j < i ==> dim_value_spec(sizes, (#[trigger] dims[j])@) is Ok
}

/// The shape that dimension expressions name, or the error of the first one
/// that does not resolve.
#[verifier::opaque]
pub open spec fn shape_of(sizes: Map<Seq<char>, usize>, dims: Seq<String>) -> Result<Seq<usize>, LoadError> {
    if forall|i: int| 0 <= i < dims.len() ==> dim_value_spec(sizes, (#[trigger] dims[i])@) is Ok {
        Ok(Seq::new(dims.len(), |i: int| dim_value_spec(sizes, dims[i]@)->Ok_0))
    } else {
        Err(dim_value_spec(sizes, dims[first_bad_dim(sizes, dims)]@)->Err_0)
    }
}

/// The first failing dimension is the only one with no failure before it.
proof fn lemma_first_bad_dim(sizes: Map<Seq<char>, usize>, dims: Seq<String>, i: int)
    requires
        0 <= i < dims.len(),
        dim_value_spec(sizes, dims[i]@) is Err,
        forall|j: int| 0 <= j < i ==> dim_value_spec(sizes, (#[trigger] dims[j])@) is Ok,
    ensures
        first_bad_dim(sizes, dims) == i,
{
    let k = first_bad_dim(sizes, dims);
    assert(0 <= k < dims.len() && dim_value_spec(sizes, dims[k]@) is Err && forall|j: int|
        0 <= j < k ==> dim_value_spec(sizes, (#[trigger] dims[j])@) is Ok);
    if k < i {
        assert(dim_value_spec(sizes, dims[k]@) is Ok);
    }
    if i < k {
        assert(dim_value_spec(sizes, dims[i]@) is Ok);
    }
}

/// Resolve each dimension expression; the first that fails gives the error.
pub fn resolve_shape(sizes: &StringHashMap<usize>, dims: &[String]) -> (r: Result<Vec<usize>, LoadError>)
    ensures
        match shape_of(sizes@, dims@) {
            Ok(s) => r matches Ok(v) && v@ == s,
            Err(e) => r == Err::<Vec<usize>, LoadError>(e),
        },
        r is Ok <==> forall|i: int| 0 <= i < dims@.len() ==> dim_value_spec(sizes@, (#[trigger] dims@[i])@) is Ok,
        (forall|i: int| 0 <= i < dims@.len() ==> dim_value_spec(sizes@, (#[trigger] dims@[i])@) is Ok)
            ==> (r matches Ok(v) && v@ == Seq::new(
            dims@.len(),
            |i: int| dim_value_spec(sizes@, dims@[i]@)->Ok_0,
        )),
        r matches Err(e) ==> exists|i: int|
            0 <= i < dims@.len() && dim_value_spec(sizes@, (#[trigger] dims@[i])@) == Err::<usize, LoadError>(e)
                && forall|j: int| 0 <= j < i ==> dim_value_spec(sizes@, (#[trigger] dims@[j])@) is Ok,
{
    let mut shape: Vec<usize> = Vec::new();
    let mut i: usize = 0;
    while i < dims.len()
        invariant
            i <= dims@.len(),
            forall|j: int| 0 <= j < i ==> dim_value_spec(sizes@, (#[trigger] dims@[j])@) is Ok,
            shape@ == Seq::new(i as nat, |j: int| dim_value_spec(sizes@, dims@[j]@)->Ok_0),
        decreases dims@.len() - i,
    {
        let v = match resolve_dim_value(sizes, dims[i].as_str()) {
            Ok(v) => v,
            Err(e) => {
                proof {
                    lemma_first_bad_dim(sizes@, dims@, i as int);
                    reveal(shape_of);
                }
                return Err(e);
            },
        };
        shape.push(v);
        i = i + 1;
        assert(shape@ =~= Seq::new(i as nat, |j: int| dim_value_spec(sizes@, dims@[j]@)->Ok_0));
    }
    proof {
        reveal(shape_of);
    }
    Ok(shape)
}

/// Bytes per stored unit of `d`: the element width, or one byte for
/// packed types.
pub open spec fn unit_bytes(d: DType) -> nat {
    if packed(d) {
        1
    } else {
        bits_of(d) / 8
    }
}

/// Little-endian value of the `ub`-byte unit at `o`.
pub open spec fn unit_value(s: Seq<u8>, o: int, ub: nat) -> u64 {
    if ub == 1 {
        s[o] as u64
    } else if ub == 2 {
        le_u16(s, o) as u64
    } else if ub == 4 {
        le_u32(s, o) as u64
    } else {
        le_u64(s, o)
    }
}

/// The `n` stored units of `d` in `s`; a boolean is true when its byte is
/// not zero.
pub open spec fn decoded_units(d: DType, s: Seq<u8>, n: nat) -> Seq<u64> {
    Seq::new(
        n,
        |i: int|
            {
                let v = unit_value(s, i * unit_bytes(d), unit_bytes(d));
                if d == DType::Bool {
                    if v != 0 {
                        1u64
                    } else {
                        0u64
                    }
                } else {
                    v
                }
            },
    )
}

/// A tensor of type `dtype` and dimensions `dims` decoded from its stored
/// bytes: the dimensions must fit a `usize` shape and the bytes must hold
/// exactly the tensor's storage.
pub open spec fn from_bytes_spec(dtype: DType, dims: Seq<u64>, bytes: Seq<u8>) -> Result<TensorView, LoadError> {
    let shape = Seq::new(dims.len(), |i: int| dims[i] as usize);
    if exists|i: int| 0 <= i < dims.len() && #[trigger] dims[i] > usize::MAX {
        Err(LoadError::InvalidDims)
    } else if !shape_fits(shape) {
        Err(LoadError::InvalidDims)
    } else {
        let n = storage_units(dtype, numel(shape));
        if n * unit_bytes(dtype) != bytes.len() {
            Err(LoadError::ByteLengthMismatch)
        } else {
            Ok(TensorView { dtype, shape, data: decoded_units(dtype, bytes, n) })
        }
    }
}

/// The stored unit at `o`.
fn read_unit(bytes: &[u8], o: usize, ub: usize) -> (r: u64)
    requires
        ub == 1 || ub == 2 || ub == 4 || ub == 8,
        o + ub <= bytes@.len(),
    ensures
        r == unit_value(bytes@, o as int, ub as nat),
        ub == 1 ==> r <= 0xFF,
        ub == 2 ==> r <= 0xFFFF,
        ub == 4 ==> r <= 0xFFFF_FFFF,
{
    if ub == 1 {
        bytes[o] as u64
    } else if ub == 2 {
        bytes[o] as u64 + bytes[o + 1] as u64 * 0x100
    } else if ub == 4 {
        match read_u32_at(bytes, o) {
            Ok(v) => v as u64,
            Err(_) => 0,
        }
    } else {
        match read_u64_at(bytes, o) {
            Ok(v) => v,
            Err(_) => 0,
        }
    }
}

/// Decode a tensor of the record's type and dimensions from its bytes.
pub fn tensor_value_from_bytes(info: &VarInfo, bytes: &[u8]) -> (r: Result<TensorValue, LoadError>)
    ensures
        match from_bytes_spec(info.dtype, info.dims@, bytes@) {
            Ok(t) => r matches Ok(rt) && rt@ == t && rt.wf(),
            Err(e) => r == Err::<TensorValue, LoadError>(e),
        },
{
    let dtype = info.dtype;
    let ghost dims = info.dims@;
    let mut shape: Vec<usize> = Vec::new();
    let mut i: usize = 0;
    while i < info.dims.len()
        invariant
            i <= dims.len(),
            dims == info.dims@,
            forall|j: int| 0 <= j < i ==> dims[j] <= usize::MAX,
            shape@ == Seq::new(i as nat, |j: int| dims[j] as usize),
        decreases dims.len() - i,
    {
        if info.dims[i] > usize::MAX as u64 {
            return Err(LoadError::InvalidDims);
        }
        shape.push(info.dims[i] as usize);
        i = i + 1;
        assert(shape@ =~= Seq::new(i as nat, |j: int| dims[j] as usize));
    }
    if !shape_fits_exec(&shape) {
        return Err(LoadError::InvalidDims);
    }
    let count = numel_exec(&shape);
    let n = dtype.storage_len(count);
    let ub: usize = if dtype.is_packed() {
        1
    } else {
        (dtype.bit_width() / 8) as usize
    };
    let blen = bytes.len();
    match n.checked_mul(ub) {
        Some(total) => {
            if total != blen {
                return Err(LoadError::ByteLengthMismatch);
            }
        },
        None => {
            return Err(LoadError::ByteLengthMismatch);
        },
    }
    let ghost target = decoded_units(dtype, bytes@, n as nat);
    let mut data: Vec<u64> = Vec::new();
    let mut k: usize = 0;
    while k < n
        invariant
            k <= n,
            blen == bytes@.len(),
            n * ub == blen,
            target == decoded_units(dtype, bytes@, n as nat),
            ub == unit_bytes(dtype),
            ub == 1 || ub == 2 || ub == 4 || ub == 8,
            data@ == target.subrange(0, k as int),
            forall|j: int| 0 <= j < k ==> #[trigger] data@[j] <= crate::tensor::elem_max(dtype),
        decreases n - k,
    {
        assert((k + 1) * ub <= n * ub) by (nonlinear_arith)
            requires
                k < n,
        ;
        assert((k + 1) * ub == k * ub + ub) by (nonlinear_arith);
        let o = k * ub;
        let v = read_unit(bytes, o, ub);
        let w = if dtype == DType::Bool {
            if v != 0 {
                1
            } else {
                0
            }
        } else {
            v
        };
        proof {
            if dtype != DType::Bool {
                assert(ub == 1 ==> crate::tensor::elem_max(dtype) == 0xFF);
                assert(ub == 2 ==> crate::tensor::elem_max(dtype) == 0xFFFF);
                assert(ub == 4 ==> crate::tensor::elem_max(dtype) == 0xFFFF_FFFF);
                assert(ub == 8 ==> crate::tensor::elem_max(dtype) == 0xFFFF_FFFF_FFFF_FFFF);
            }
            assert(w == target[k as int]);
        }
        data.push(w);
        k = k + 1;
        assert(data@ =~= target.subrange(0, k as int));
    }
    assert(target.subrange(0, n as int) =~= target);
    Ok(TensorValue { dtype, shape, data })
}

/// A model file as read: size variables, tensor records, metadata entries
/// and each tensor's quantization, by name.
pub struct ModelView {
    pub sizes: Map<Seq<char>, usize>,
    pub vars: Map<Seq<char>, VarInfoView>,
    pub metadata: Map<Seq<char>, MetadataView>,
    pub quant: Map<Seq<char>, Option<QuantView>>,
}

/// What a model file's bytes hold: the header, then the size variables,
/// metadata entries and tensor records at the offsets it gives, in that order.
pub open spec fn model_spec(d: Seq<u8>) -> Result<ModelView, LoadError> {
    match header_spec(d) {
        Err(e) => Err(e),
        Ok(h) => match sizevars_spec(d, h.offset_sizevars as int, h.n_sizevars as nat) {
            Err(e) => Err(e),
            Ok((sizes, _)) => match metadata_spec(d, h.offset_metadata as int, h.n_metadata as nat) {
                Err(e) => Err(e),
                Ok((metadata, _)) => match tensors_spec(
                    d,
                    h.offset_tensors as int,
                    h.n_tensors as nat,
                    h.offset_data as int,
                ) {
                    Err(e) => Err(e),
                    Ok((vars, quant, _)) => Ok(ModelView { sizes, vars, metadata, quant }),
                },
            },
        },
    }
}

/// A parsed `.oinf` model file: its bytes and what they describe.
pub struct ModelLoader {
    pub data: Vec<u8>,
    pub sizes: StringHashMap<usize>,
    pub vars: StringHashMap<VarInfo>,
    pub metadata: StringHashMap<MetadataInfo>,
    pub tensor_quant: StringHashMap<Option<QuantParams>>,
}

impl ModelLoader {
    /// The model as views.
    pub open spec fn model_view(&self) -> ModelView {
        ModelView {
            sizes: self.sizes@,
            vars: self.vars@.map_values(|v: VarInfo| v@),
            metadata: self.metadata@.map_values(|v: MetadataInfo| v@),
            quant: quant_map_view(self.tensor_quant@),
        }
    }

    /// Parse a model file's bytes.
    pub fn parse(data: Vec<u8>) -> (r: Result<ModelLoader, LoadError>)
        ensures
            match model_spec(data@) {
                Ok(v) => (r matches Ok(m) && m.model_view() == v && m.data@ == data@),
                Err(e) => r matches Err(re) && re == e,
            },
    {
        let h = parse_header(data.as_slice())?;
        let (sizes, _) = parse_sizevars(data.as_slice(), h.offset_sizevars as usize, h.n_sizevars)?;
        let (metadata, _) = parse_metadata(data.as_slice(), h.offset_metadata as usize, h.n_metadata)?;
        let (vars, tensor_quant) = parse_tensors(
            data.as_slice(),
            h.offset_tensors as usize,
            h.n_tensors,
            h.offset_data,
        )?;
        Ok(ModelLoader { data, sizes, vars, metadata, tensor_quant })
    }

    /// The value of a size variable.
    pub fn size_of(&self, name: &str) -> (r: Result<usize, LoadError>)
        ensures
            self.sizes@.contains_key(name@) ==> r == Ok::<usize, LoadError>(self.sizes@[name@]),
            !self.sizes@.contains_key(name@) ==> r == Err::<usize, LoadError>(LoadError::UnknownSize),
    {
        match self.sizes.get(name) {
            Some(v) => Ok(*v),
            None => Err(LoadError::UnknownSize),
        }
    }

    /// Resolve one dimension expression.
    pub fn resolve_dim_value(&self, dim: &str) -> (r: Result<usize, LoadError>)
        ensures
            r == dim_value_spec(self.sizes@, dim@),
    {
        resolve_dim_value(&self.sizes, dim)
    }

    /// Resolve dimension expressions into a shape.
    pub fn resolve_shape(&self, dims: &[String]) -> (r: Result<Vec<usize>, LoadError>)
        ensures
            match shape_of(self.sizes@, dims@) {
                Ok(s) => r matches Ok(v) && v@ == s,
                Err(e) => r == Err::<Vec<usize>, LoadError>(e),
            },
            r is Ok <==> forall|i: int| 0 <= i < dims@.len() ==> dim_value_spec(self.sizes@, (#[trigger] dims@[i])@) is Ok,
            (forall|i: int| 0 <= i < dims@.len() ==> dim_value_spec(self.sizes@, (#[trigger] dims@[i])@) is Ok)
                ==> (r matches Ok(v) && v@ == Seq::new(
                dims@.len(),
                |i: int| dim_value_spec(self.sizes@, dims@[i]@)->Ok_0,
            )),
            r matches Err(e) ==> exists|i: int|
                0 <= i < dims@.len() && dim_value_spec(self.sizes@, (#[trigger] dims@[i])@) == Err::<
                    usize,
                    LoadError,
                >(e) && forall|j: int| 0 <= j < i ==> dim_value_spec(self.sizes@, (#[trigger] dims@[j])@) is Ok,
    {
        let r = resolve_shape(&self.sizes, dims);
        proof {
            reveal(shape_of);
        }
        r
    }

    /// The product of resolved dimension expressions (held at `usize::MAX`).
    pub fn resolve_len(&self, dims: &[String]) -> (r: Result<usize, LoadError>)
        ensures
            (forall|i: int| 0 <= i < dims@.len() ==> dim_value_spec(self.sizes@, (#[trigger] dims@[i])@) is Ok)
                ==> r == Ok::<usize, LoadError>(sat_product(
                Seq::new(dims@.len(), |i: int| dim_value_spec(self.sizes@, dims@[i]@)->Ok_0),
            )),
            r matches Err(e) ==> exists|i: int|
                0 <= i < dims@.len() && dim_value_spec(self.sizes@, (#[trigger] dims@[i])@) == Err::<
                    usize,
                    LoadError,
                >(e),
    {
        let ghost vals = Seq::new(dims@.len(), |i: int| dim_value_spec(self.sizes@, dims@[i]@)->Ok_0);
        let mut total: usize = 1;
        let mut i: usize = 0;
        while i < dims.len()
            invariant
                i <= dims@.len(),
                forall|j: int| 0 <= j < i ==> dim_value_spec(self.sizes@, (#[trigger] dims@[j])@) is Ok,
                vals == Seq::new(dims@.len(), |j: int| dim_value_spec(self.sizes@, dims@[j]@)->Ok_0),
                total == sat_product(vals.subrange(0, i as int)),
            decreases dims@.len() - i,
        {
            let v = self.resolve_dim_value(dims[i].as_str())?;
            proof {
                assert(vals.subrange(0, i + 1).drop_last() =~= vals.subrange(0, i as int));
            }
            total = mul_saturating(total, v);
            i = i + 1;
        }
        assert(vals.subrange(0, dims@.len() as int) =~= vals);
        Ok(total)
    }

    /// The record of a tensor.
    pub fn var_info(&self, name: &str) -> (r: Option<&VarInfo>)
        ensures
            match r {
                Some(v) => self.vars@.contains_key(name@) && *v == self.vars@[name@],
                None => !self.vars@.contains_key(name@),
            },
    {
        self.vars.get(name)
    }

    /// The quantization recorded for a tensor (outer `None` for an unknown
    /// name).
    pub fn tensor_quant(&self, name: &str) -> (r: Option<&Option<QuantParams>>)
        ensures
            match r {
                Some(q) => self.tensor_quant@.contains_key(name@) && *q == self.tensor_quant@[name@],
                None => !self.tensor_quant@.contains_key(name@),
            },
    {
        self.tensor_quant.get(name)
    }

    /// What decoding the tensor `name` from the file gives.
    pub open spec fn load_tensor_spec(&self, name: Seq<char>) -> Result<TensorView, LoadError> {
        if !self.vars@.contains_key(name) {
            Err(LoadError::UnknownVariable)
        } else if !self.vars@[name].has_data {
            Err(LoadError::NoData)
        } else {
            match self.vars@[name].value_range {
                None => Err(LoadError::MissingDataRange),
                Some((s, e)) => if s <= e <= self.data@.len() {
                    from_bytes_spec(
                        self.vars@[name].dtype,
                        self.vars@[name].dims@,
                        self.data@.subrange(s as int, e as int),
                    )
                } else {
                    Err(LoadError::OffsetOutOfBounds)
                },
            }
        }
    }

    /// What decoding the non-string metadata entry `name` gives (`None`
    /// when there is no such entry).
    pub open spec fn metadata_tensor_spec(&self, name: Seq<char>) -> Result<Option<TensorView>, LoadError> {
        if !self.metadata@.contains_key(name) {
            Ok(None)
        } else {
            match meta_tensor_spec(self.data@, self.metadata@[name]@) {
                Ok(t) => Ok(Some(t)),
                Err(e) => Err(e),
            }
        }
    }

    /// Decode a tensor's data from the file.
    pub fn load_tensor(&self, name: &str) -> (r: Result<TensorValue, LoadError>)
        ensures
            match self.load_tensor_spec(name@) {
                Ok(v) => r matches Ok(t) && t@ == v && t.wf(),
                Err(e) => r == Err::<TensorValue, LoadError>(e),
            },
            !self.vars@.contains_key(name@) ==> r == Err::<TensorValue, LoadError>(
                LoadError::UnknownVariable,
            ),
            self.vars@.contains_key(name@) && !self.vars@[name@].has_data ==> r == Err::<
                TensorValue,
                LoadError,
            >(LoadError::NoData),
            self.vars@.contains_key(name@) && self.vars@[name@].has_data ==> match self.vars@[name@].value_range {
                None => r == Err::<TensorValue, LoadError>(LoadError::MissingDataRange),
                Some((s, e)) => if s <= e <= self.data@.len() {
                    match from_bytes_spec(
                        self.vars@[name@].dtype,
                        self.vars@[name@].dims@,
                        self.data@.subrange(s as int, e as int),
                    ) {
                        Ok(t) => r matches Ok(rt) && rt@ == t && rt.wf(),
                        Err(err) => r == Err::<TensorValue, LoadError>(err),
                    }
                } else {
                    r == Err::<TensorValue, LoadError>(LoadError::OffsetOutOfBounds)
                },
            },
    {
        let info = match self.vars.get(name) {
            Some(info) => info,
            None => return Err(LoadError::UnknownVariable),
        };
        if !info.has_data {
            return Err(LoadError::NoData);
        }
        let (s, e) = match info.value_range {
            Some(range) => range,
            None => return Err(LoadError::MissingDataRange),
        };
        if !(s <= e && e <= self.data.len()) {
            return Err(LoadError::OffsetOutOfBounds);
        }
        let bytes = vstd::slice::slice_subrange(self.data.as_slice(), s, e);
        tensor_value_from_bytes(info, bytes)
    }

    /// Whether a metadata entry holds a string.
    pub fn has_metadata_string(&self, name: &str) -> (r: bool)
        ensures
            r == (self.metadata@.contains_key(name@) && self.metadata@[name@].value_type == VT_STRING),
    {
        match self.metadata.get(name) {
            Some(info) => info.value_type == VT_STRING,
            None => false,
        }
    }
}

/// The tensor a non-string metadata value holds: an array (element type,
/// dimension count, dimensions, then the elements up to the value's end) or
/// a single element of the value's type.
pub open spec fn meta_tensor_spec(d: Seq<u8>, info: MetadataView) -> Result<TensorView, LoadError> {
    let start = info.value_offset as int;
    let end = start + info.value_nbytes;
    if end > d.len() {
        Err(LoadError::MetadataOutOfBounds)
    } else if info.value_type == VT_STRING {
        Err(LoadError::MetadataIsString)
    } else if info.value_type == VT_NDARRAY {
        if start + 8 > d.len() {
            Err(LoadError::UnexpectedEof)
        } else {
            let ndim = le_u32(d, start + 4) as int;
            let cur = start + 8 + 8 * ndim;
            if cur > d.len() {
                Err(LoadError::UnexpectedEof)
            } else {
                match to_dtype_spec(le_u32(d, start)) {
                    Err(e) => Err(e),
                    Ok(dtype) => if cur > end {
                        Err(LoadError::MetadataOutOfBounds)
                    } else {
                        from_bytes_spec(dtype, u64_words(d, start + 8, ndim), d.subrange(cur, end))
                    },
                }
            }
        }
    } else {
        match to_dtype_spec(info.value_type) {
            Err(e) => Err(e),
            Ok(dtype) => from_bytes_spec(dtype, Seq::empty(), d.subrange(start, end)),
        }
    }
}

/// The text a string metadata value holds: a `u32` length, the UTF-8 bytes,
/// padding to eight bytes, all inside the value.
pub open spec fn meta_string_spec(d: Seq<u8>, info: MetadataView) -> Result<Seq<char>, LoadError> {
    let start = info.value_offset as int;
    let end = start + info.value_nbytes;
    if end > d.len() {
        Err(LoadError::MetadataOutOfBounds)
    } else if info.value_nbytes < 4 {
        Err(LoadError::MetadataStringTooSmall)
    } else {
        let len = le_u32(d, start) as int;
        if start + 4 + len > end {
            Err(LoadError::MetadataStringOutOfBounds)
        } else if !vstd::utf8::valid_utf8(d.subrange(start + 4, start + 4 + len)) {
            Err(LoadError::InvalidUtf8)
        } else if start + align_up_spec(4 + len, 8) > end {
            Err(LoadError::MetadataStringPaddingOutOfBounds)
        } else {
            Ok(vstd::utf8::decode_utf8(d.subrange(start + 4, start + 4 + len)))
        }
    }
}

impl ModelLoader {
    #[verifier::loop_isolation(false)]
    /// Decode a non-string metadata value as a tensor (`None` when there is
    /// no entry of that name).
    pub fn load_metadata_tensor(&self, name: &str) -> (r: Result<Option<TensorValue>, LoadError>)
        ensures
            match self.metadata_tensor_spec(name@) {
                Ok(Some(v)) => r matches Ok(Some(t)) && t@ == v && t.wf(),
                Ok(None) => r == Ok::<Option<TensorValue>, LoadError>(None),
                Err(e) => r == Err::<Option<TensorValue>, LoadError>(e),
            },
            !self.metadata@.contains_key(name@) ==> r == Ok::<Option<TensorValue>, LoadError>(None),
            self.metadata@.contains_key(name@) ==> match meta_tensor_spec(
                self.data@,
                self.metadata@[name@]@,
            ) {
                Ok(t) => (r matches Ok(Some(rt)) && rt@ == t && rt.wf()),
                Err(e) => r == Err::<Option<TensorValue>, LoadError>(e),
            },
    {
        let info = match self.metadata.get(name) {
            Some(info) => info,
            None => return Ok(None),
        };
        let data = self.data.as_slice();
        let dlen = data.len();
        let start = info.value_offset;
        let nb = info.value_nbytes;
        if nb > dlen as u64 || start > dlen as u64 - nb {
            return Err(LoadError::MetadataOutOfBounds);
        }
        let start = start as usize;
        let end = start + nb as usize;
        if info.value_type == VT_STRING {
            return Err(LoadError::MetadataIsString);
        }
        if info.value_type == VT_NDARRAY {
            let mut cursor = start;
            let element_type = read_u32(data, &mut cursor)?;
            let ndim = read_u32(data, &mut cursor)?;
            let ghost c0 = cursor as int;
            let mut dims: Vec<u64> = Vec::new();
            let mut i: u32 = 0;
            while i < ndim
                invariant
                    i <= ndim,
                    dlen == data@.len(),
                    c0 == start + 8,
                    ndim == le_u32(data@, start + 4),
                    cursor == c0 + 8 * i,
                    cursor <= data@.len(),
                    dims@ =~= u64_words(data@, start + 8, i as int),
                decreases ndim - i,
            {
                let v = match read_u64(data, &mut cursor) {
                    Ok(v) => v,
                    Err(e) => {
                        assert(start + 8 + 8 * (ndim as int) > data@.len());
                        return Err(e);
                    },
                };
                dims.push(v);
                i = i + 1;
            }
            let dtype = ValueType::to_dtype(element_type)?;
            if cursor > end {
                return Err(LoadError::MetadataOutOfBounds);
            }
            let var_info = VarInfo {
                name: String::new(),
                dtype,
                dims,
                value_range: None,
                has_data: true,
            };
            let payload = vstd::slice::slice_subrange(data, cursor, end);
            let t = tensor_value_from_bytes(&var_info, payload)?;
            return Ok(Some(t));
        }
        let dtype = ValueType::to_dtype(info.value_type)?;
        let var_info = VarInfo { name: String::new(), dtype, dims: Vec::new(), value_range: None, has_data: true };
        assert(var_info.dims@ =~= Seq::<u64>::empty());
        let payload = vstd::slice::slice_subrange(data, start, end);
        let t = tensor_value_from_bytes(&var_info, payload)?;
        Ok(Some(t))
    }

    /// Read a string metadata value (`None` when there is no entry of that
    /// name or it is not a string).
    pub fn load_metadata_string(&self, name: &str) -> (r: Result<Option<String>, LoadError>)
        ensures
            !(self.metadata@.contains_key(name@) && self.metadata@[name@].value_type == VT_STRING)
                ==> r == Ok::<Option<String>, LoadError>(None),
            self.metadata@.contains_key(name@) && self.metadata@[name@].value_type == VT_STRING
                ==> match meta_string_spec(self.data@, self.metadata@[name@]@) {
                Ok(t) => (r matches Ok(Some(rs)) && rs@ == t),
                Err(e) => r == Err::<Option<String>, LoadError>(e),
            },
    {
        let info = match self.metadata.get(name) {
            Some(info) => info,
            None => return Ok(None),
        };
        if info.value_type != VT_STRING {
            return Ok(None);
        }
        let data = self.data.as_slice();
        let dlen = data.len();
        let start = info.value_offset;
        let nb = info.value_nbytes;
        if nb > dlen as u64 || start > dlen as u64 - nb {
            return Err(LoadError::MetadataOutOfBounds);
        }
        let start = start as usize;
        let end = start + nb as usize;
        if nb < 4 {
            return Err(LoadError::MetadataStringTooSmall);
        }
        let len = read_u32_at(data, start)? as usize;
        if len > end - start - 4 {
            return Err(LoadError::MetadataStringOutOfBounds);
        }
        let payload_end = start + 4 + len;
        let raw = vstd::slice::slice_subrange(data, start + 4, payload_end);
        let text = match utf8_string(raw) {
            Some(t) => t,
            None => return Err(LoadError::InvalidUtf8),
        };
        let padded = crate::oinf::align_up_u64(4 + len as u64, 8);
        if padded > (end - start) as u64 {
            return Err(LoadError::MetadataStringPaddingOutOfBounds);
        }
        Ok(Some(text))
    }
}

/// `a * b * ...` over the sequence, each step held at `usize::MAX`.
pub open spec fn sat_product(s: Seq<usize>) -> usize
    decreases s.len(),
{
    if s.len() == 0 {
        1
    } else {
        sat_mul(sat_product(s.drop_last()), s.last())
    }
}

/// A tensor loaded from a model has the element type and the dimensions of
/// its record, and its bytes are exactly its storage units' worth.
pub proof fn law_loaded_tensor_matches_record(m: ModelLoader, name: Seq<char>)
    requires
        m.load_tensor_spec(name) is Ok,
    ensures
        ({
            let t = m.load_tensor_spec(name)->Ok_0;
            let info = m.vars@[name];
            &&& t.dtype == info.dtype
            &&& t.shape == Seq::new(info.dims@.len(), |i: int| info.dims@[i] as usize)
            &&& info.value_range matches Some((s, e)) && e - s == storage_units(t.dtype, numel(t.shape))
                * unit_bytes(t.dtype)
        }),
{
}

} // verus!
