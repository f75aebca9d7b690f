//! Quantization parameters stored beside a tensor in a `.oinf` file.
use vstd::prelude::*;
use crate::oinf::{le_u32, le_u64, align_up_spec, align_up_u64, read_u32_at, read_u64_at, LoadError};

verus! {

/// Whether values are quantized around zero or around a zero point.
#[derive(Clone, Copy, Debug, PartialEq, Eq, Structural)]
pub enum QuantScheme {
    Symmetric,
    Asymmetric,
}

/// Quantization scale: one for the tensor, or one per channel along an axis.
/// Scales are IEEE-754 `f32` values held as their bit patterns.
#[derive(Clone, Debug)]
pub enum QuantScale {
    PerTensor(u32),
    PerChannel { axis: usize, values: Vec<u32> },
}

/// Quantization zero point: one for the tensor, or one per channel.
#[derive(Clone, Debug)]
pub enum QuantZeroPoint {
    PerTensor(i32),
    PerChannel { axis: usize, values: Vec<i32> },
}

/// Quantization parameters of one tensor.
#[derive(Clone, Debug)]
pub struct QuantParams {
    pub scheme: QuantScheme,
    pub scale: QuantScale,
    pub zero_point: Option<QuantZeroPoint>,
}

pub enum ScaleView {
    PerTensor(u32),
    PerChannel(usize, Seq<u32>),
}

pub enum ZeroPointView {
    PerTensor(i32),
    PerChannel(usize, Seq<i32>),
}

pub struct QuantView {
    pub scheme: QuantScheme,
    pub scale: ScaleView,
    pub zero_point: Option<ZeroPointView>,
}

impl View for QuantScale {
    type V = ScaleView;

    open spec fn view(&self) -> ScaleView {
        match self {
            QuantScale::PerTensor(v) => ScaleView::PerTensor(*v),
            QuantScale::PerChannel { axis, values } => ScaleView::PerChannel(*axis, values@),
        }
    }
}

impl View for QuantZeroPoint {
    type V = ZeroPointView;

    open spec fn view(&self) -> ZeroPointView {
        match self {
            QuantZeroPoint::PerTensor(v) => ZeroPointView::PerTensor(*v),
            QuantZeroPoint::PerChannel { axis, values } => ZeroPointView::PerChannel(
                *axis,
                values@,
            ),
        }
    }
}

impl View for QuantParams {
    type V = QuantView;

    open spec fn view(&self) -> QuantView {
        QuantView {
            scheme: self.scheme,
            scale: self.scale@,
            zero_point: match self.zero_point {
                Some(z) => Some(z@),
                None => None,
            },
        }
    }
}

/// The `count` little-endian `u32` words of `p` starting at byte `start`.
pub open spec fn u32_words(p: Seq<u8>, start: int, count: int) -> Seq<u32> {
    Seq::new(count as nat, |i: int| le_u32(p, start + 4 * i))
}

/// The `count` little-endian `i32` words of `p` starting at byte `start`.
pub open spec fn i32_words(p: Seq<u8>, start: int, count: int) -> Seq<i32> {
    Seq::new(count as nat, |i: int| le_u32(p, start + 4 * i) as i32)
}

/// Fixed head of a quantization record.
#[derive(Clone, Copy, Debug, PartialEq, Eq, Structural)]
pub struct QuantHead {
    pub scheme: u32,
    pub scale_mode: u32,
    pub zp_mode: u32,
    pub scale_axis: u64,
    pub scale_count: u64,
    pub zp_axis: u64,
    pub zp_count: u64,
}

/// The 48-byte head of the record `p`: scheme, scale mode, zero-point mode, a
/// zero word, then scale axis and count and zero-point axis and count as
/// `u64`; the record must be exactly the head, the `f32` scales and the
/// `i32` zero points, padded to eight bytes.
pub open spec fn quant_head_spec(p: Seq<u8>) -> Result<QuantHead, LoadError> {
    let h = QuantHead {
        scheme: le_u32(p, 0),
        scale_mode: le_u32(p, 4),
        zp_mode: le_u32(p, 8),
        scale_axis: le_u64(p, 16),
        scale_count: le_u64(p, 24),
        zp_axis: le_u64(p, 32),
        zp_count: le_u64(p, 40),
    };
    let sb = h.scale_count as int * 4;
    let zb = h.zp_count as int * 4;
    if le_u32(p, 12) != 0 {
        Err(LoadError::QuantReservedNonZero)
    } else if sb > usize::MAX || zb > usize::MAX || 48 + sb + zb + 7 > usize::MAX {
        Err(LoadError::QuantCountOverflow)
    } else if align_up_spec(48 + sb + zb, 8) != p.len() {
        Err(LoadError::QuantSizeMismatch)
    } else {
        Ok(h)
    }
}

/// Interpretation of a record head with its scales and zero points, for a
/// tensor of dimensions `dims`.
pub open spec fn quant_modes_spec(
    h: QuantHead,
    scales: Seq<u32>,
    zps: Seq<i32>,
    dims: Seq<usize>,
) -> Result<QuantView, LoadError> {
    let scale_axis = h.scale_axis as int;
    let scale_count = h.scale_count as int;
    let zp_axis = h.zp_axis as int;
    let zp_count = h.zp_count as int;
    let scheme_r = if h.scheme == 1 {
        Ok(QuantScheme::Symmetric)
    } else if h.scheme == 2 {
        Ok(QuantScheme::Asymmetric)
    } else {
        Err(LoadError::QuantInvalidScheme)
    };
    let scale_r = if h.scale_mode == 1 {
        if scale_axis != 0 || scale_count != 1 {
            Err(LoadError::QuantPerTensorScaleShape)
        } else {
            Ok(ScaleView::PerTensor(scales[0]))
        }
    } else if h.scale_mode == 2 {
        if scale_axis >= dims.len() {
            Err(LoadError::QuantScaleAxisOutOfRange)
        } else if scale_count != dims[scale_axis] {
            Err(LoadError::QuantScaleCountMismatch)
        } else {
            Ok(ScaleView::PerChannel(scale_axis as usize, scales))
        }
    } else {
        Err(LoadError::QuantInvalidScaleMode)
    };
    let zp_r = if h.zp_mode == 0 {
        if zp_count != 0 {
            Err(LoadError::QuantZeroPointNoneCount)
        } else {
            Ok(None)
        }
    } else if h.zp_mode == 1 {
        if h.scale_mode != 1 {
            Err(LoadError::QuantPerTensorZeroPointNeedsPerTensorScale)
        } else if zp_axis != 0 || zp_count != 1 {
            Err(LoadError::QuantPerTensorZeroPointShape)
        } else {
            Ok(Some(ZeroPointView::PerTensor(zps[0])))
        }
    } else if h.zp_mode == 2 {
        if h.scale_mode != 2 {
            Err(LoadError::QuantPerChannelZeroPointNeedsPerChannelScale)
        } else if zp_axis >= dims.len() {
            Err(LoadError::QuantZeroPointAxisOutOfRange)
        } else if zp_axis != scale_axis {
            Err(LoadError::QuantZeroPointAxisMismatch)
        } else if zp_count != dims[zp_axis] {
            Err(LoadError::QuantZeroPointCountMismatch)
        } else {
            Ok(Some(ZeroPointView::PerChannel(zp_axis as usize, zps)))
        }
    } else {
        Err(LoadError::QuantInvalidZeroPointMode)
    };
    match scheme_r {
        Err(e) => Err(e),
        Ok(sch) => match scale_r {
            Err(e) => Err(e),
            Ok(sc) => match zp_r {
                Err(e) => Err(e),
                Ok(zp) => if sch == QuantScheme::Symmetric && zp is Some {
                    Err(LoadError::QuantSymmetricWithZeroPoint)
                } else {
                    Ok(QuantView { scheme: sch, scale: sc, zero_point: zp })
                },
            },
        },
    }
}

/// The quantization record of `nbytes` bytes at `offset` of `d`, for a tensor
/// of dimensions `dims`.
pub open spec fn quant_spec(d: Seq<u8>, offset: int, nbytes: int, dims: Seq<usize>) -> Result<
    QuantView,
    LoadError,
> {
    if nbytes < 48 {
        Err(LoadError::QuantTooSmall)
    } else if offset + nbytes > usize::MAX {
        Err(LoadError::QuantOverflow)
    } else if offset + nbytes > d.len() {
        Err(LoadError::QuantOutOfBounds)
    } else {
        let p = d.subrange(offset, offset + nbytes);
        match quant_head_spec(p) {
            Err(e) => Err(e),
            Ok(h) => quant_modes_spec(
                h,
                u32_words(p, 48, h.scale_count as int),
                i32_words(p, 48 + h.scale_count as int * 4, h.zp_count as int),
                dims,
            ),
        }
    }
}

/// Little-endian `f32` words of `bytes`, kept as their bit patterns.
pub fn read_f32_vec(bytes: &[u8]) -> (r: Result<Vec<u32>, LoadError>)
    ensures
        bytes@.len() % 4 != 0 ==> r is Err,
        bytes@.len() % 4 == 0 ==> (r matches Ok(v) && v@ == u32_words(bytes@, 0, (bytes@.len() / 4) as int)),
{
    if bytes.len() % 4 != 0 {
        return Err(LoadError::ByteLengthMismatch);
    }
    let n = bytes.len() / 4;
    let mut out: Vec<u32> = Vec::with_capacity(n);
    let mut i: usize = 0;
    while i < n
        invariant
            n == bytes@.len() / 4,
            bytes@.len() % 4 == 0,
            i <= n,
            out@ =~= u32_words(bytes@, 0, i as int),
        decreases n - i,
    {
        assert(4 * i + 4 <= bytes.len()) by (nonlinear_arith)
            requires
                i < n,
                n == bytes.len() / 4,
        ;
        let off: usize = 4 * i;
        let w = match read_u32_at(bytes, off) {
            Ok(w) => w,
            Err(_) => 0,
        };
        out.push(w);
        i = i + 1;
    }
    Ok(out)
}

/// Little-endian `i32` words of `bytes`.
pub fn read_i32_vec(bytes: &[u8]) -> (r: Result<Vec<i32>, LoadError>)
    ensures
        bytes@.len() % 4 != 0 ==> r is Err,
        bytes@.len() % 4 == 0 ==> (r matches Ok(v) && v@ == i32_words(bytes@, 0, (bytes@.len() / 4) as int)),
{
    if bytes.len() % 4 != 0 {
        return Err(LoadError::ByteLengthMismatch);
    }
    let n = bytes.len() / 4;
    let mut out: Vec<i32> = Vec::with_capacity(n);
    let mut i: usize = 0;
    while i < n
        invariant
            n == bytes@.len() / 4,
            bytes@.len() % 4 == 0,
            i <= n,
            out@ =~= i32_words(bytes@, 0, i as int),
        decreases n - i,
    {
        assert(4 * i + 4 <= bytes.len()) by (nonlinear_arith)
            requires
                i < n,
                n == bytes.len() / 4,
        ;
        let off: usize = 4 * i;
        let w = match read_u32_at(bytes, off) {
            Ok(w) => w,
            Err(_) => 0,
        };
        out.push(#[verifier::truncate] (w as i32));
        i = i + 1;
    }
    Ok(out)
}

/// Read and check the head of the quantization record `payload`.
pub fn parse_quant_head(payload: &[u8]) -> (r: Result<QuantHead, LoadError>)
    requires
        payload@.len() >= 48,
    ensures
        match quant_head_spec(payload@) {
            Ok(h) => r matches Ok(rh) && rh == h,
            Err(e) => r matches Err(re) && re == e,
        },
{
    let scheme = read_u32_at(payload, 0)?;
    let scale_mode = read_u32_at(payload, 4)?;
    let zp_mode = read_u32_at(payload, 8)?;
    let reserved = read_u32_at(payload, 12)?;
    let scale_axis = read_u64_at(payload, 16)?;
    let scale_count = read_u64_at(payload, 24)?;
    let zp_axis = read_u64_at(payload, 32)?;
    let zp_count = read_u64_at(payload, 40)?;
    if reserved != 0 {
        return Err(LoadError::QuantReservedNonZero);
    }
    if scale_count > (usize::MAX / 4) as u64 || zp_count > (usize::MAX / 4) as u64 {
        return Err(LoadError::QuantCountOverflow);
    }
    let scale_bytes = (scale_count * 4) as usize;
    let zp_bytes = (zp_count * 4) as usize;
    if scale_bytes > usize::MAX - 55 || zp_bytes > usize::MAX - 55 - scale_bytes {
        return Err(LoadError::QuantCountOverflow);
    }
    let total = (48 + scale_bytes + zp_bytes) as u64;
    let expected = align_up_u64(total, 8);
    if expected != payload.len() as u64 {
        return Err(LoadError::QuantSizeMismatch);
    }
    Ok(QuantHead { scheme, scale_mode, zp_mode, scale_axis, scale_count, zp_axis, zp_count })
}

/// Interpret a checked record head with its scales and zero points for a
/// tensor of dimensions `dims`.
pub fn interpret_quant(h: &QuantHead, scale_values: Vec<u32>, zp_values: Vec<i32>, dims: &[usize]) -> (r: Result<
    QuantParams,
    LoadError,
>)
    requires
        scale_values@.len() == h.scale_count,
        zp_values@.len() == h.zp_count,
    ensures
        match quant_modes_spec(*h, scale_values@, zp_values@, dims@) {
            Ok(q) => r matches Ok(rq) && rq@ == q,
            Err(e) => r matches Err(re) && re == e,
        },
{
    let quant_scheme = if h.scheme == 1 {
        QuantScheme::Symmetric
    } else if h.scheme == 2 {
        QuantScheme::Asymmetric
    } else {
        return Err(LoadError::QuantInvalidScheme);
    };
    let scale = if h.scale_mode == 1 {
        if h.scale_axis != 0 || h.scale_count != 1 {
            return Err(LoadError::QuantPerTensorScaleShape);
        }
        QuantScale::PerTensor(scale_values[0])
    } else if h.scale_mode == 2 {
        if h.scale_axis >= dims.len() as u64 {
            return Err(LoadError::QuantScaleAxisOutOfRange);
        }
        if h.scale_count != dims[h.scale_axis as usize] as u64 {
            return Err(LoadError::QuantScaleCountMismatch);
        }
        QuantScale::PerChannel { axis: h.scale_axis as usize, values: scale_values }
    } else {
        return Err(LoadError::QuantInvalidScaleMode);
    };
    let zero_point = if h.zp_mode == 0 {
        if h.zp_count != 0 {
            return Err(LoadError::QuantZeroPointNoneCount);
        }
        None
    } else if h.zp_mode == 1 {
        if h.scale_mode != 1 {
            return Err(LoadError::QuantPerTensorZeroPointNeedsPerTensorScale);
        }
        if h.zp_axis != 0 || h.zp_count != 1 {
            return Err(LoadError::QuantPerTensorZeroPointShape);
        }
        Some(QuantZeroPoint::PerTensor(zp_values[0]))
    } else if h.zp_mode == 2 {
        if h.scale_mode != 2 {
            return Err(LoadError::QuantPerChannelZeroPointNeedsPerChannelScale);
        }
        if h.zp_axis >= dims.len() as u64 {
            return Err(LoadError::QuantZeroPointAxisOutOfRange);
        }
        if h.zp_axis != h.scale_axis {
            return Err(LoadError::QuantZeroPointAxisMismatch);
        }
        if h.zp_count != dims[h.zp_axis as usize] as u64 {
            return Err(LoadError::QuantZeroPointCountMismatch);
        }
        Some(QuantZeroPoint::PerChannel { axis: h.zp_axis as usize, values: zp_values })
    } else {
        return Err(LoadError::QuantInvalidZeroPointMode);
    };
    if quant_scheme == QuantScheme::Symmetric && zero_point.is_some() {
        return Err(LoadError::QuantSymmetricWithZeroPoint);
    }
    Ok(QuantParams { scheme: quant_scheme, scale, zero_point })
}

/// Parse the quantization record of `nbytes` bytes at `offset` of `data`
/// for a tensor of dimensions `dims`.
#[verifier::rlimit(50)]
pub fn parse_quant_params(data: &[u8], offset: usize, nbytes: usize, dims: &[usize]) -> (r: Result<
    QuantParams,
    LoadError,
>)
    ensures
        match quant_spec(data@, offset as int, nbytes as int, dims@) {
            Ok(q) => r matches Ok(rq) && rq@ == q,
            Err(e) => r matches Err(re) && re == e,
        },
{
    if nbytes < 48 {
        return Err(LoadError::QuantTooSmall);
    }
    let end = match offset.checked_add(nbytes) {
        Some(e) => e,
        None => return Err(LoadError::QuantOverflow),
    };
    if end > data.len() {
        return Err(LoadError::QuantOutOfBounds);
    }
    let payload = vstd::slice::slice_subrange(data, offset, end);
    let h = parse_quant_head(payload)?;
    let scale_end = 48 + (h.scale_count * 4) as usize;
    let zp_end = scale_end + (h.zp_count * 4) as usize;
    let scale_values = read_f32_vec(vstd::slice::slice_subrange(payload, 48, scale_end))?;
    let zp_values = read_i32_vec(vstd::slice::slice_subrange(payload, scale_end, zp_end))?;
    proof {
        let p = payload@;
        assert(scale_values@ =~= u32_words(p, 48, h.scale_count as int));
        assert(zp_values@ =~= i32_words(p, scale_end as int, h.zp_count as int));
    }
    interpret_quant(&h, scale_values, zp_values, dims)
}

} // verus!
