//! Operator attributes and their scalar encodings for Vulkan push constants.
use vstd::prelude::*;
use vstd::hash_map::StringHashMap;
use crate::dtype::DType;
use crate::text::str_eq;

verus! {

/// Why a Vulkan dispatch cannot be planned.
#[derive(Clone, Copy, Debug, PartialEq, Eq, Structural)]
pub enum VkError {
    UnsupportedScalarKind,
    UnsupportedScalarValue,
    IntegerAttrNeedsInt,
    UnsignedAttrNegative,
    UnsignedAttrNeedsInt,
    BoolAttrNeedsBool,
    TernaryUnsupported,
    TooManyDims,
    WrongInputCount,
    MissingOutput,
    ShapeMismatch,
    DtypeMismatch,
    MissingToAttr,
    ToAttrNotDtype,
    BadRoundingMode,
    RoundingModeNotString,
    SaturateNotBoolOrInt,
    UnsupportedCast,
    RankTooSmall,
    InnerDimMismatch,
    BroadcastIncompatible,
    AxisOutOfRange,
    AxesNotInts,
    UnsupportedOp,
    MissingAccDtype,
    MalformedTensor,
}

/// The value of an operator attribute; floating-point values are held as
/// their bit patterns.
#[derive(Clone, Debug)]
pub enum AttrValue {
    Float(u32),
    Double(u64),
    Int(i64),
    UInt(u64),
    Bool(bool),
    Str(String),
    IntList(Vec<i64>),
    Var(String),
    DType(DType),
    DTypeList(Vec<DType>),
}

/// A named operator attribute.
#[derive(Clone, Debug)]
pub struct OpAttr {
    pub name: String,
    pub value: AttrValue,
}

/// The attributes of one operator node.
#[derive(Clone, Debug)]
pub struct OpAttrs {
    pub items: Vec<OpAttr>,
}

/// Kind of scalar an attribute value is.
#[derive(Clone, Copy, Debug, PartialEq, Eq, Structural)]
pub enum ScalarAttrKind {
    Float,
    Int,
    UInt,
    Bool,
}

/// Whether a schema attribute is a scalar.
#[derive(Clone, Copy, Debug, PartialEq, Eq, Structural)]
pub enum OpAttrType {
    Scalar,
    Other,
}

/// One attribute of an operator's schema.
#[derive(Clone, Debug)]
pub struct AttrDef {
    pub name: String,
    pub kind: OpAttrType,
    pub scalar_kinds: Vec<ScalarAttrKind>,
}

/// A scalar attribute in every encoding a kernel may read.
#[derive(Clone, Copy, Debug, PartialEq, Eq, Structural)]
pub struct ScalarAttrBits {
    pub f64_bits: u64,
    pub f32_bits: u32,
    pub i64_bits: u64,
    pub u64_bits: u64,
    pub bool_u32: u32,
    pub u8: u8,
}

/// The two floating-point images of a numeric attribute value, computed
/// by the host: its value as `f64` bits, and that value rounded to `f32` bits.
#[derive(Clone, Copy, Debug, PartialEq, Eq, Structural)]
pub struct FloatImage {
    pub f64_bits: u64,
    pub f32_bits: u32,
}

/// The two's-complement value of a 64-bit pattern.
pub open spec fn i64_of_bits(b: u64) -> i64 {
    if b <= i64::MAX {
        b as i64
    } else {
        (b as int - 0x1_0000_0000_0000_0000) as i64
    }
}

impl ScalarAttrBits {
    /// All encodings zero.
    pub open spec fn zero() -> ScalarAttrBits {
        ScalarAttrBits { f64_bits: 0, f32_bits: 0, i64_bits: 0, u64_bits: 0, bool_u32: 0, u8: 0 }
    }

    /// The signed encoding as an `i64`.
    pub fn as_i64(self) -> (r: i64)
        ensures
            r == i64_of_bits(self.i64_bits),
    {
        if self.i64_bits <= i64::MAX as u64 {
            self.i64_bits as i64
        } else {
            (self.i64_bits as i128 - 0x1_0000_0000_0000_0000i128) as i64
        }
    }
}

/// Element families that decide how a scalar attribute is encoded.
#[derive(Clone, Copy, Debug, PartialEq, Eq, Structural)]
pub enum DTypeClass {
    Float,
    Signed,
    Unsigned,
    Bool,
    Bitset,
    Ternary,
}

/// The family of an element type.
pub open spec fn dtype_class_spec(d: DType) -> DTypeClass {
    match d {
        DType::F8 | DType::BF16 | DType::F16 | DType::F32 | DType::F64 => DTypeClass::Float,
        DType::I8 | DType::I16 | DType::I32 | DType::I64 | DType::I1 | DType::I2 | DType::I4 => DTypeClass::Signed,
        DType::U8 | DType::U16 | DType::U32 | DType::U64 | DType::U1 | DType::U2 | DType::U4 => DTypeClass::Unsigned,
        DType::Bool => DTypeClass::Bool,
        DType::Bitset => DTypeClass::Bitset,
        DType::T1 | DType::T2 => DTypeClass::Ternary,
    }
}

/// The family of an element type.
pub fn dtype_class(d: DType) -> (r: DTypeClass)
    ensures
        r == dtype_class_spec(d),
{
    match d {
        DType::F8 | DType::BF16 | DType::F16 | DType::F32 | DType::F64 => DTypeClass::Float,
        DType::I8 | DType::I16 | DType::I32 | DType::I64 | DType::I1 | DType::I2 | DType::I4 => DTypeClass::Signed,
        DType::U8 | DType::U16 | DType::U32 | DType::U64 | DType::U1 | DType::U2 | DType::U4 => DTypeClass::Unsigned,
        DType::Bool => DTypeClass::Bool,
        DType::Bitset => DTypeClass::Bitset,
        DType::T1 | DType::T2 => DTypeClass::Ternary,
    }
}

/// The scalar kind of an attribute value.
pub open spec fn scalar_kind_spec(v: AttrValue) -> Result<ScalarAttrKind, VkError> {
    match v {
        AttrValue::Float(_) | AttrValue::Double(_) => Ok(ScalarAttrKind::Float),
        AttrValue::Int(_) => Ok(ScalarAttrKind::Int),
        AttrValue::UInt(_) => Ok(ScalarAttrKind::UInt),
        AttrValue::Bool(_) => Ok(ScalarAttrKind::Bool),
        _ => Err(VkError::UnsupportedScalarValue),
    }
}

/// The scalar kind of an attribute value.
pub fn scalar_kind_from_value(value: &AttrValue) -> (r: Result<ScalarAttrKind, VkError>)
    ensures
        r == scalar_kind_spec(*value),
{
    match value {
        AttrValue::Float(_) | AttrValue::Double(_) => Ok(ScalarAttrKind::Float),
        AttrValue::Int(_) => Ok(ScalarAttrKind::Int),
        AttrValue::UInt(_) => Ok(ScalarAttrKind::UInt),
        AttrValue::Bool(_) => Ok(ScalarAttrKind::Bool),
        _ => Err(VkError::UnsupportedScalarValue),
    }
}

/// The encodings of a scalar attribute value for an element family: a
/// float family takes the host's float images; a signed family takes the
/// value as 64-bit two's complement (and its low byte); an unsigned or
/// bitset family the non-negative value (and its low byte); a boolean
/// family whether the value is non-zero.
pub open spec fn scalar_bits_spec(
    allowed: Seq<ScalarAttrKind>,
    class: DTypeClass,
    v: AttrValue,
    img: FloatImage,
) -> Result<ScalarAttrBits, VkError> {
    match scalar_kind_spec(v) {
        Err(e) => Err(e),
        Ok(kind) => if allowed.len() > 0 && !allowed.contains(kind) {
            Err(VkError::UnsupportedScalarKind)
        } else {
            let z = ScalarAttrBits::zero();
            match class {
                DTypeClass::Float => Ok(ScalarAttrBits { f64_bits: img.f64_bits, f32_bits: img.f32_bits, ..z }),
                DTypeClass::Signed => match v {
                    AttrValue::Int(i) => Ok(
                        ScalarAttrBits { i64_bits: i as u64, u8: i as u8, ..z },
                    ),
                    AttrValue::UInt(u) => Ok(ScalarAttrBits { i64_bits: u, u8: u as u8, ..z }),
                    AttrValue::Bool(b) => Ok(
                        ScalarAttrBits { i64_bits: if b { 1 } else { 0 }, u8: if b { 1 } else { 0 }, ..z },
                    ),
                    _ => Err(VkError::IntegerAttrNeedsInt),
                },
                DTypeClass::Unsigned | DTypeClass::Bitset => match v {
                    AttrValue::UInt(u) => Ok(ScalarAttrBits { u64_bits: u, u8: u as u8, ..z }),
                    AttrValue::Int(i) => if i < 0 {
                        Err(VkError::UnsignedAttrNegative)
                    } else {
                        Ok(ScalarAttrBits { u64_bits: i as u64, u8: i as u8, ..z })
                    },
                    AttrValue::Bool(b) => Ok(
                        ScalarAttrBits { u64_bits: if b { 1 } else { 0 }, u8: if b { 1 } else { 0 }, ..z },
                    ),
                    _ => Err(VkError::UnsignedAttrNeedsInt),
                },
                DTypeClass::Bool => match v {
                    AttrValue::Bool(b) => Ok(ScalarAttrBits { bool_u32: if b { 1 } else { 0 }, ..z }),
                    AttrValue::Int(i) => Ok(ScalarAttrBits { bool_u32: if i != 0 { 1 } else { 0 }, ..z }),
                    AttrValue::UInt(u) => Ok(ScalarAttrBits { bool_u32: if u != 0 { 1 } else { 0 }, ..z }),
                    _ => Err(VkError::BoolAttrNeedsBool),
                },
                DTypeClass::Ternary => Err(VkError::TernaryUnsupported),
            }
        },
    }
}

/// Whether `kind` is in `allowed`.
fn kind_allowed(allowed: &[ScalarAttrKind], kind: ScalarAttrKind) -> (r: bool)
    ensures
        r == allowed@.contains(kind),
{
    let mut i: usize = 0;
    while i < allowed.len()
        invariant
            i <= allowed@.len(),
            forall|j: int| 0 <= j < i ==> allowed@[j] != kind,
        decreases allowed@.len() - i,
    {
        if allowed[i] == kind {
            return true;
        }
        i = i + 1;
    }
    false
}

/// Encode one scalar attribute value for an element family.
pub fn scalar_bits_from_attr(
    allowed_kinds: &[ScalarAttrKind],
    class: DTypeClass,
    value: &AttrValue,
    img: FloatImage,
) -> (r: Result<ScalarAttrBits, VkError>)
    ensures
        r == scalar_bits_spec(allowed_kinds@, class, *value, img),
{
    let kind = scalar_kind_from_value(value)?;
    if allowed_kinds.len() > 0 && !kind_allowed(allowed_kinds, kind) {
        return Err(VkError::UnsupportedScalarKind);
    }
    let z = ScalarAttrBits { f64_bits: 0, f32_bits: 0, i64_bits: 0, u64_bits: 0, bool_u32: 0, u8: 0 };
    match class {
        DTypeClass::Float => Ok(ScalarAttrBits { f64_bits: img.f64_bits, f32_bits: img.f32_bits, ..z }),
        DTypeClass::Signed => match value {
            AttrValue::Int(i) => Ok(
                ScalarAttrBits { i64_bits: #[verifier::truncate] (*i as u64), u8: #[verifier::truncate] (*i as u8), ..z },
            ),
            AttrValue::UInt(u) => Ok(ScalarAttrBits { i64_bits: *u, u8: #[verifier::truncate] (*u as u8), ..z }),
            AttrValue::Bool(b) => Ok(
                ScalarAttrBits { i64_bits: if *b { 1 } else { 0 }, u8: if *b { 1 } else { 0 }, ..z },
            ),
            _ => Err(VkError::IntegerAttrNeedsInt),
        },
        DTypeClass::Unsigned | DTypeClass::Bitset => match value {
            AttrValue::UInt(u) => Ok(ScalarAttrBits { u64_bits: *u, u8: #[verifier::truncate] (*u as u8), ..z }),
            AttrValue::Int(i) => {
                if *i < 0 {
                    Err(VkError::UnsignedAttrNegative)
                } else {
                    Ok(ScalarAttrBits { u64_bits: *i as u64, u8: #[verifier::truncate] (*i as u8), ..z })
                }
            },
            AttrValue::Bool(b) => Ok(
                ScalarAttrBits { u64_bits: if *b { 1 } else { 0 }, u8: if *b { 1 } else { 0 }, ..z },
            ),
            _ => Err(VkError::UnsignedAttrNeedsInt),
        },
        DTypeClass::Bool => match value {
            AttrValue::Bool(b) => Ok(ScalarAttrBits { bool_u32: if *b { 1 } else { 0 }, ..z }),
            AttrValue::Int(i) => Ok(ScalarAttrBits { bool_u32: if *i != 0 { 1 } else { 0 }, ..z }),
            AttrValue::UInt(u) => Ok(ScalarAttrBits { bool_u32: if *u != 0 { 1 } else { 0 }, ..z }),
            _ => Err(VkError::BoolAttrNeedsBool),
        },
        DTypeClass::Ternary => Err(VkError::TernaryUnsupported),
    }
}

/// Position of the first attribute named `name`.
pub open spec fn attr_pos(items: Seq<OpAttr>, name: Seq<char>) -> Option<int> {
    if exists|i: int| 0 <= i < items.len() && (#[trigger] items[i]).name@ == name {
        Some(
            choose|i: int|
                0 <= i < items.len() && (#[trigger] items[i]).name@ == name && forall|j: int|
                    0 <= j < i ==> (#[trigger] items[j]).name@ != name,
        )
    } else {
        None
    }
}

/// Position of the first attribute named `name`.
pub fn find_attr(attrs: &OpAttrs, name: &str) -> (r: Option<usize>)
    ensures
        match r {
            Some(i) => i < attrs.items@.len() && attr_pos(attrs.items@, name@) == Some(i as int),
            None => attr_pos(attrs.items@, name@) is None,
        },
{
    let mut i: usize = 0;
    while i < attrs.items.len()
        invariant
            i <= attrs.items@.len(),
            forall|j: int| 0 <= j < i ==> (#[trigger] attrs.items@[j]).name@ != name@,
        decreases attrs.items@.len() - i,
    {
        if str_eq(attrs.items[i].name.as_str(), name) {
            proof {
                let items = attrs.items@;
                assert(exists|k: int| 0 <= k < items.len() && (#[trigger] items[k]).name@ == name@) by {
                    assert(items[i as int].name@ == name@);
                }
                let c = choose|k: int|
                    0 <= k < items.len() && (#[trigger] items[k]).name@ == name@ && forall|j: int|
                        0 <= j < k ==> (#[trigger] items[j]).name@ != name@;
                assert(0 <= c < items.len() && items[c].name@ == name@ && forall|j: int|
                    0 <= j < c ==> (#[trigger] items[j]).name@ != name@) by {
                    assert(items[i as int].name@ == name@ && forall|j: int|
                        0 <= j < i ==> (#[trigger] items[j]).name@ != name@);
                }
                if c < i {
                    assert(items[c].name@ != name@);
                }
                if c > i {
                    assert(items[i as int].name@ != name@);
                }
            }
            return Some(i);
        }
        i = i + 1;
    }
    None
}

/// The scalar attributes of the first `n` schema entries, encoded: a later
/// schema entry of the same name overrides an earlier one; the node's first
/// attribute of that name gives the value.
pub open spec fn collect_spec(
    schema: Seq<AttrDef>,
    class: DTypeClass,
    items: Seq<OpAttr>,
    images: Seq<FloatImage>,
    n: nat,
) -> Result<Map<Seq<char>, ScalarAttrBits>, VkError>
    decreases n,
{
    if n == 0 {
        Ok(Map::empty())
    } else {
        match collect_spec(schema, class, items, images, (n - 1) as nat) {
            Err(e) => Err(e),
            Ok(m) => {
                let def = schema[n - 1];
                if def.kind != OpAttrType::Scalar {
                    Ok(m)
                } else {
                    match attr_pos(items, def.name@) {
                        None => Ok(m),
                        Some(i) => match scalar_bits_spec(def.scalar_kinds@, class, items[i].value, images[i]) {
                            Err(e) => Err(e),
                            Ok(b) => Ok(m.insert(def.name@, b)),
                        },
                    }
                }
            },
        }
    }
}

proof fn lemma_collect_err(
    schema: Seq<AttrDef>,
    class: DTypeClass,
    items: Seq<OpAttr>,
    images: Seq<FloatImage>,
    i: nat,
    n: nat,
)
    requires
        i <= n,
        collect_spec(schema, class, items, images, i) is Err,
    ensures
        collect_spec(schema, class, items, images, n) == collect_spec(schema, class, items, images, i),
    decreases n - i,
{
    if i < n {
        lemma_collect_err(schema, class, items, images, i, (n - 1) as nat);
    }
}

/// The encodings of every scalar attribute of an operator schema that the
/// node sets, by name. `images[i]` holds the float images of the node's
/// attribute `i`.
pub fn collect_scalar_attr_bits(
    schema_attrs: &[AttrDef],
    dtype: DType,
    attrs: &OpAttrs,
    images: &[FloatImage],
) -> (r: Result<StringHashMap<ScalarAttrBits>, VkError>)
    requires
        images@.len() == attrs.items@.len(),
    ensures
        match collect_spec(schema_attrs@, dtype_class_spec(dtype), attrs.items@, images@, schema_attrs@.len()) {
            Ok(m) => r matches Ok(rm) && rm@ == m,
            Err(e) => r matches Err(re) && re == e,
        },
{
    let class = dtype_class(dtype);
    let mut map: StringHashMap<ScalarAttrBits> = StringHashMap::new();
    let mut d: usize = 0;
    while d < schema_attrs.len()
        invariant
            d <= schema_attrs@.len(),
            images@.len() == attrs.items@.len(),
            class == dtype_class_spec(dtype),
            collect_spec(schema_attrs@, class, attrs.items@, images@, d as nat) == Ok::<
                Map<Seq<char>, ScalarAttrBits>,
                VkError,
            >(map@),
        decreases schema_attrs@.len() - d,
    {
        let def = &schema_attrs[d];
        if def.kind == OpAttrType::Scalar {
            match find_attr(attrs, def.name.as_str()) {
                Some(i) => {
                    match scalar_bits_from_attr(def.scalar_kinds.as_slice(), class, &attrs.items[i].value, images[i]) {
                        Ok(bits) => {
                            map.insert(def.name.clone(), bits);
                        },
                        Err(e) => {
                            proof {
                                lemma_collect_err(schema_attrs@, class, attrs.items@, images@, (d + 1) as nat, schema_attrs@.len());
                            }
                            return Err(e);
                        },
                    }
                },
                None => {},
            }
        }
        d = d + 1;
    }
    Ok(map)
}

} // verus!
