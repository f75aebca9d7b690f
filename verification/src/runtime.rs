//! Runtime rules: reading scalars for control flow, name and yield
//! validation, trace records, devices, and how concurrently run blocks'
//! yields are merged.
use vstd::prelude::*;
use vstd::hash_map::StringHashMap;
use vstd::string::StringExecFns;
use crate::dtype::{bits_of, packed, DType};
use crate::model_loader::ModelLoader;
use crate::float_bits::{float_to_i64, half_to_single, half_to_single_exec, trunc_spec};
use crate::tensor::{numel, signed_of, TensorValue, TensorView};
use crate::text::{parse_i64, parse_i64_spec, split_once_char, first_index_of, trim, trim_str};

verus! {

/// Why a value cannot drive control flow.
#[derive(Clone, Copy, Debug, PartialEq, Eq, Structural)]
pub enum ValueError {
    NotScalar,
    PackedUnsupported,
    FloatNeedsHost,
}

/// A decimal `i64` literal, surrounded by optional whitespace.
pub fn parse_i64_literal(expr: &str) -> (r: Option<i64>)
    ensures
        r == parse_i64_spec(trim(expr@)),
{
    parse_i64(trim_str(expr))
}

/// A loop bound: a decimal literal, or the value of a size variable (its
/// pattern reinterpreted as `i64`), or nothing.
pub open spec fn i64_literal_spec(expr: Seq<char>, sizes: Map<Seq<char>, usize>) -> Option<i64> {
    match parse_i64_spec(trim(expr)) {
        Some(v) => Some(v),
        None => if sizes.contains_key(trim(expr)) {
            Some(sizes[trim(expr)] as i64)
        } else {
            None
        },
    }
}

/// Resolve a loop bound written as a literal or a size variable.
pub fn resolve_i64_literal(expr: &str, model: &ModelLoader) -> (r: Option<i64>)
    ensures
        r == i64_literal_spec(expr@, model.sizes@),
{
    if let Some(v) = parse_i64_literal(expr) {
        return Some(v);
    }
    match model.size_of(trim_str(expr)) {
        Ok(size) => Some(#[verifier::truncate] (size as i64)),
        Err(_) => None,
    }
}

/// The single element of a one-element tensor as an `i64`: integers by
/// value (`u64` patterns reinterpreted), booleans and bitsets by their
/// byte, and half, bfloat16, single and double precision floats truncated
/// toward zero (see `trunc_spec`). The 8-bit float is left to the host.
pub open spec fn tensor_i64_spec(t: TensorView) -> Result<i64, ValueError> {
    if numel(t.shape) != 1 {
        Err(ValueError::NotScalar)
    } else if packed(t.dtype) {
        Err(ValueError::PackedUnsupported)
    } else {
        match t.dtype {
            DType::I8 | DType::I16 | DType::I32 | DType::I64 | DType::U64 => Ok(
                signed_of(t.data[0], bits_of(t.dtype)) as i64,
            ),
            DType::U8 | DType::U16 | DType::U32 | DType::Bool | DType::Bitset => Ok(t.data[0] as i64),
            DType::F16 => Ok(trunc_spec(t.data[0], 10, 5)),
            DType::BF16 => Ok(trunc_spec(t.data[0], 7, 8)),
            DType::F32 => Ok(trunc_spec(t.data[0], 23, 8)),
            DType::F64 => Ok(trunc_spec(t.data[0], 52, 11)),
            _ => Err(ValueError::FloatNeedsHost),
        }
    }
}

/// Read a one-element tensor as an `i64`.
pub fn tensor_to_i64(value: &TensorValue) -> (r: Result<i64, ValueError>)
    requires
        value.wf(),
    ensures
        r == tensor_i64_spec(value@),
{
    if value.len() != 1 {
        return Err(ValueError::NotScalar);
    }
    if value.dtype.is_packed() {
        return Err(ValueError::PackedUnsupported);
    }
    let v = value.data[0];
    match value.dtype {
        DType::I8 | DType::I16 | DType::I32 | DType::I64 | DType::U64 => {
            Ok(crate::cache_utils::signed_value(v, value.dtype.bit_width()))
        },
        DType::U8 | DType::U16 | DType::U32 | DType::Bool | DType::Bitset => Ok(v as i64),
        DType::F16 => Ok(float_to_i64(v, 10, 5)),
        DType::BF16 => Ok(float_to_i64(v, 7, 8)),
        DType::F32 => Ok(float_to_i64(v, 23, 8)),
        DType::F64 => Ok(float_to_i64(v, 52, 11)),
        _ => Err(ValueError::FloatNeedsHost),
    }
}

/// Mask of everything but the sign bit of a floating-point pattern.
pub open spec fn magnitude_mask(d: DType) -> u64 {
    match d {
        DType::F8 => 0x7F,
        DType::F16 | DType::BF16 => 0x7FFF,
        DType::F32 => 0x7FFF_FFFF,
        _ => 0x7FFF_FFFF_FFFF_FFFF,
    }
}

/// Whether a floating-point element type is one of the float types.
pub open spec fn is_float_dtype(d: DType) -> bool {
    d == DType::F8 || d == DType::F16 || d == DType::BF16 || d == DType::F32 || d == DType::F64
}

/// The single element of a one-element tensor as a condition: true when it
/// is not zero (for floats, when it is not `+0` or `-0`, so `NaN` is true).
pub open spec fn tensor_bool_spec(t: TensorView) -> Result<bool, ValueError> {
    if numel(t.shape) != 1 {
        Err(ValueError::NotScalar)
    } else if packed(t.dtype) {
        Err(ValueError::PackedUnsupported)
    } else if is_float_dtype(t.dtype) {
        Ok(t.data[0] & magnitude_mask(t.dtype) != 0)
    } else {
        Ok(t.data[0] != 0)
    }
}

/// Read a one-element tensor as a condition.
pub fn tensor_to_bool(value: &TensorValue) -> (r: Result<bool, ValueError>)
    requires
        value.wf(),
    ensures
        r == tensor_bool_spec(value@),
{
    if value.len() != 1 {
        return Err(ValueError::NotScalar);
    }
    if value.dtype.is_packed() {
        return Err(ValueError::PackedUnsupported);
    }
    let v = value.data[0];
    match value.dtype {
        DType::F8 => Ok(v & 0x7F != 0),
        DType::F16 | DType::BF16 => Ok(v & 0x7FFF != 0),
        DType::F32 => Ok(v & 0x7FFF_FFFF != 0),
        DType::F64 => Ok(v & 0x7FFF_FFFF_FFFF_FFFF != 0),
        _ => Ok(v != 0),
    }
}

/// The variable a possibly indexed name refers to: the text before `[`.
pub open spec fn base_name_spec(name: Seq<char>) -> Seq<char> {
    match first_index_of(name, '[') {
        Some(i) => name.subrange(0, i),
        None => name,
    }
}

/// The variable a possibly indexed name refers to.
pub fn base_name(name: &str) -> (r: &str)
    ensures
        r@ == base_name_spec(name@),
{
    match split_once_char(name, '[') {
        Some((base, _)) => base,
        None => name,
    }
}

/// Why a graph fails validation.
#[derive(Clone, Copy, Debug, PartialEq, Eq, Structural)]
pub enum ValidationError {
    YieldNotFinal,
    AwaitWithoutYield,
    AwaitedNotYielded,
    DuplicateDeclaration,
    AssignShadowsDeclared,
    DuplicateTemporary,
    InvalidDims,
    UnknownVariable,
    UnknownCacheVariable,
    NotPersistent,
    OutputNotMutable,
    DtypeMismatch,
    NotScalar,
    IncrementDtypeUnsupported,
    MissingBrackets,
    TableNeedsIndices,
    TooManyIndices,
    SliceUnsupported,
    ResetNeedsScalarIndices,
    NegativeIndex,
    UnknownCacheIndex,
    UnknownBranchTarget,
    BranchNeedsElse,
    AwaitOnConstant,
    EmptyVariableName,
    TableMissingIndices,
    ModelVarNotFound,
    ModelDtypeMismatch,
    ModelDimsInvalid,
    ModelShapeMismatch,
    TransferSourceUnknown,
    TransferDestinationUnknown,
    TransferIntoImmutable,
    TransferShapeMismatch,
    DuplicateAttr,
    UnsupportedAttr,
    AttrTypeMismatch,
    UnknownAttrVariable,
    AttrNotScalar,
    UnknownAttrString,
    WrongInputCount,
    WrongOutputCount,
    MissingOutput,
    UnknownInput,
    PersistentInput,
    BroadcastNotAllowed,
    WriteToConstant,
    PersistentOutput,
    UnknownOutput,
    OutputTypeUnknown,
    InplaceNotSupported,
    UnsupportedTyping,
    UnsupportedOp,
    NoBlocks,
    MalformedNodeTable,
}

/// What the yield rules read of a block: its name and number of nodes.
#[derive(Clone, Debug)]
pub struct Block {
    pub name: String,
    pub node_count: usize,
}

/// A block other than the entry block must end with its yield, and every
/// variable it awaits it must also yield.
pub open spec fn yield_rules_spec(
    node_count: usize,
    is_entry: bool,
    await_vars: Seq<Seq<char>>,
    yield_vars: Seq<Seq<char>>,
    yield_positions: Seq<usize>,
) -> Result<(), ValidationError> {
    if !is_entry && yield_positions.len() > 0 && yield_positions.last() + 1 != node_count {
        Err(ValidationError::YieldNotFinal)
    } else if !is_entry && await_vars.len() > 0 && yield_vars.len() == 0 {
        Err(ValidationError::AwaitWithoutYield)
    } else if !is_entry && exists|i: int| 0 <= i < await_vars.len() && !yield_vars.contains(#[trigger] await_vars[i]) {
        Err(ValidationError::AwaitedNotYielded)
    } else {
        Ok(())
    }
}

/// The names as values.
pub open spec fn names_view(v: Seq<String>) -> Seq<Seq<char>> {
    v.map_values(|s: String| s@)
}

/// Whether `names` holds `name`.
pub fn contains_name(names: &[String], name: &String) -> (r: bool)
    ensures
        r == names_view(names@).contains(name@),
{
    let mut i: usize = 0;
    while i < names.len()
        invariant
            i <= names@.len(),
            forall|j: int| 0 <= j < i ==> names@[j]@ != name@,
        decreases names@.len() - i,
    {
        if names[i] == *name {
            assert(names_view(names@)[i as int] == name@);
            return true;
        }
        i = i + 1;
    }
    proof {
        if names_view(names@).contains(name@) {
            let k = choose|k: int| 0 <= k < names_view(names@).len() && names_view(names@)[k] == name@;
            assert(names@[k]@ == name@);
        }
    }
    false
}

/// Check a block's yields and awaits.
#[verifier::loop_isolation(false)]
pub fn validate_yield_rules(
    block: &Block,
    is_entry: bool,
    await_vars: &[String],
    yield_vars: &[String],
    yield_positions: &[usize],
) -> (r: Result<(), ValidationError>)
    ensures
        r == yield_rules_spec(
            block.node_count,
            is_entry,
            names_view(await_vars@),
            names_view(yield_vars@),
            yield_positions@,
        ),
{
    if !is_entry && yield_positions.len() > 0 {
        let pos = yield_positions[yield_positions.len() - 1];
        if pos as u128 + 1 != block.node_count as u128 {
            return Err(ValidationError::YieldNotFinal);
        }
    }
    if !is_entry && await_vars.len() > 0 {
        if yield_vars.len() == 0 {
            return Err(ValidationError::AwaitWithoutYield);
        }
        let mut i: usize = 0;
        while i < await_vars.len()
            invariant
                i <= await_vars@.len(),
                forall|j: int| 0 <= j < i ==> names_view(yield_vars@).contains(#[trigger] names_view(await_vars@)[j]),
            decreases await_vars@.len() - i,
        {
            if !contains_name(yield_vars, &await_vars[i]) {
                proof {
                    assert(!names_view(yield_vars@).contains(names_view(await_vars@)[i as int]));
                }
                return Err(ValidationError::AwaitedNotYielded);
            }
            i = i + 1;
        }
    }
    Ok(())
}

/// Kind of a trace event.
#[derive(Clone, Copy, Debug, PartialEq, Eq, Structural)]
pub enum TraceEventKind {
    Assign,
    OpExecute,
    CacheRead,
    CacheWrite,
    CacheIncrement,
    CacheDecrement,
    CacheReset,
    Barrier,
    Dep,
    Transfer,
    Yield,
    Await,
    Branch,
    Loop,
    Return,
}

impl TraceEventKind {
    /// The kind's name.
    pub open spec fn name_spec(self) -> Seq<char> {
        match self {
            TraceEventKind::Assign => "Assign"@,
            TraceEventKind::OpExecute => "OpExecute"@,
            TraceEventKind::CacheRead => "CacheRead"@,
            TraceEventKind::CacheWrite => "CacheWrite"@,
            TraceEventKind::CacheIncrement => "CacheIncrement"@,
            TraceEventKind::CacheDecrement => "CacheDecrement"@,
            TraceEventKind::CacheReset => "CacheReset"@,
            TraceEventKind::Barrier => "Barrier"@,
            TraceEventKind::Dep => "Dep"@,
            TraceEventKind::Transfer => "Transfer"@,
            TraceEventKind::Yield => "Yield"@,
            TraceEventKind::Await => "Await"@,
            TraceEventKind::Branch => "Branch"@,
            TraceEventKind::Loop => "Loop"@,
            TraceEventKind::Return => "Return"@,
        }
    }

    /// The kind's name, as it is displayed.
    pub fn as_str(&self) -> (r: &'static str)
        ensures
            r@ == self.name_spec(),
    {
        match self {
            TraceEventKind::Assign => "Assign",
            TraceEventKind::OpExecute => "OpExecute",
            TraceEventKind::CacheRead => "CacheRead",
            TraceEventKind::CacheWrite => "CacheWrite",
            TraceEventKind::CacheIncrement => "CacheIncrement",
            TraceEventKind::CacheDecrement => "CacheDecrement",
            TraceEventKind::CacheReset => "CacheReset",
            TraceEventKind::Barrier => "Barrier",
            TraceEventKind::Dep => "Dep",
            TraceEventKind::Transfer => "Transfer",
            TraceEventKind::Yield => "Yield",
            TraceEventKind::Await => "Await",
            TraceEventKind::Branch => "Branch",
            TraceEventKind::Loop => "Loop",
            TraceEventKind::Return => "Return",
        }
    }
}

/// The time an op took: as text, and as milliseconds, the microseconds
/// and the nanoseconds past them.
#[derive(Clone, Debug)]
pub struct TraceTiming {
    pub micros: String,
    pub ms: u64,
    pub us: u64,
    pub ns: u64,
}

/// Decimal digits of `n`.
pub open spec fn decimal(n: nat) -> Seq<char>
    decreases n,
{
    if n < 10 {
        seq![(('0' as u32) + n) as char]
    } else {
        decimal(n / 10) + seq![(('0' as u32) + (n % 10)) as char]
    }
}

/// The text of one decimal digit.
fn digit_str(d: u64) -> (r: &'static str)
    requires
        d < 10,
    ensures
        r@ == seq![(('0' as u32) + d) as char],
{
    match d {
        0 => {
            proof {
                reveal_strlit("0");
            }
            "0"
        },
        1 => {
            proof {
                reveal_strlit("1");
            }
            "1"
        },
        2 => {
            proof {
                reveal_strlit("2");
            }
            "2"
        },
        3 => {
            proof {
                reveal_strlit("3");
            }
            "3"
        },
        4 => {
            proof {
                reveal_strlit("4");
            }
            "4"
        },
        5 => {
            proof {
                reveal_strlit("5");
            }
            "5"
        },
        6 => {
            proof {
                reveal_strlit("6");
            }
            "6"
        },
        7 => {
            proof {
                reveal_strlit("7");
            }
            "7"
        },
        8 => {
            proof {
                reveal_strlit("8");
            }
            "8"
        },
        _ => {
            proof {
                reveal_strlit("9");
            }
            "9"
        },
    }
}

/// The decimal digits of `n`.
fn u64_decimal(n: u64) -> (r: String)
    ensures
        r@ == decimal(n as nat),
    decreases n,
{
    if n < 10 {
        String::from_str(digit_str(n))
    } else {
        let mut s = u64_decimal(n / 10);
        s.append(digit_str(n % 10));
        s
    }
}

/// Text `"{ms}ms {us}us {ns}ns"`.
fn timing_text(ms: u64, us: u64, ns: u64) -> (r: String)
    ensures
        r@ == decimal(ms as nat) + "ms "@ + decimal(us as nat) + "us "@ + decimal(ns as nat) + "ns"@,
{
    let mut s = u64_decimal(ms);
    s.append("ms ");
    s.append(u64_decimal(us).as_str());
    s.append("us ");
    s.append(u64_decimal(ns).as_str());
    s.append("ns");
    s
}

/// The parts of a duration of `total_ns` nanoseconds: whole milliseconds
/// (truncated to 64 bits), then microseconds and nanoseconds past them.
pub open spec fn timing_parts_spec(total_ns: u128) -> (u64, u64, u64) {
    ((total_ns / 1_000_000) as u64, ((total_ns / 1_000) % 1_000) as u64, (total_ns % 1_000) as u64)
}

/// The trace timing of a duration of `total_ns` nanoseconds.
pub fn format_trace_timing(total_ns: u128) -> (r: TraceTiming)
    ensures
        (r.ms, r.us, r.ns) == timing_parts_spec(total_ns),
        r.micros@ == decimal(r.ms as nat) + "ms "@ + decimal(r.us as nat) + "us "@ + decimal(r.ns as nat) + "ns"@,
{
    let ms = #[verifier::truncate] ((total_ns / 1_000_000) as u64);
    let us = ((total_ns / 1_000) % 1_000) as u64;
    let ns = (total_ns % 1_000) as u64;
    TraceTiming { micros: timing_text(ms, us, ns), ms, us, ns }
}

/// Execution device.
#[derive(Clone, Copy, Debug, PartialEq, Eq, Structural, Hash)]
pub enum Device {
    Cpu,
    Vulkan,
}

impl Device {
    /// Whether this build runs on the device: the CPU always, and Vulkan
    /// too, since this build carries the Vulkan backend.
    pub fn is_supported(&self) -> (r: bool)
        ensures
            r == true,
    {
        match self {
            Device::Cpu => true,
            Device::Vulkan => true,
        }
    }
}

/// What a yield hands to the blocks that run concurrently: the named values.
#[derive(Clone, Debug)]
pub struct YieldSnapshot {
    pub vars: Vec<(String, TensorValue)>,
}

/// What a concurrently run block hands back: the values it yielded and
/// which of them it changed.
#[derive(Clone, Debug)]
pub struct ConsumerResult {
    pub block_name: String,
    pub yielded: Vec<(String, TensorValue)>,
    pub mutated: Vec<String>,
}

/// Why yielded values cannot be merged.
#[derive(Clone, Copy, Debug, PartialEq, Eq, Structural)]
pub enum MergeError {
    MultipleMutators,
}

/// A consumer changed the value it yielded under `name`.
pub open spec fn mutated_by(c: ConsumerResult, name: Seq<char>) -> bool {
    names_view(c.mutated@).contains(name)
}

/// State of the merge after the first `n` yielded values, in order: for
/// each name, which consumer's value stands (by consumer and position) and
/// whether it was a changed one; a second changed value for one name fails.
pub open spec fn merge_spec(results: Seq<ConsumerResult>, items: Seq<(int, int)>, n: nat) -> Result<
    Map<Seq<char>, (int, int, bool)>,
    MergeError,
>
    decreases n,
{
    if n == 0 {
        Ok(Map::empty())
    } else {
        match merge_spec(results, items, (n - 1) as nat) {
            Err(e) => Err(e),
            Ok(m) => {
                let (c, k) = items[n - 1];
                let name = results[c].yielded@[k].0@;
                let mutated = mutated_by(results[c], name);
                if m.contains_key(name) {
                    let existing = m[name].2;
                    if existing && mutated {
                        Err(MergeError::MultipleMutators)
                    } else if !existing && mutated {
                        Ok(m.insert(name, (c, k, true)))
                    } else {
                        Ok(m)
                    }
                } else {
                    Ok(m.insert(name, (c, k, mutated)))
                }
            },
        }
    }
}

/// Every yielded value, consumer by consumer, in order.
pub open spec fn yielded_items(results: Seq<ConsumerResult>) -> Seq<(int, int)>
    decreases results.len(),
{
    if results.len() == 0 {
        Seq::empty()
    } else {
        yielded_items(results.drop_last()) + Seq::new(
            results.last().yielded@.len(),
            |k: int| ((results.len() - 1) as int, k),
        )
    }
}

proof fn lemma_merge_prefix(results: Seq<ConsumerResult>, a: Seq<(int, int)>, b: Seq<(int, int)>, n: nat)
    requires
        n <= b.len(),
        n <= a.len(),
        forall|i: int| 0 <= i < n ==> a[i] == b[i],
    ensures
        merge_spec(results, a, n) == merge_spec(results, b, n),
    decreases n,
{
    if n > 0 {
        lemma_merge_prefix(results, a, b, (n - 1) as nat);
    }
}

proof fn lemma_merge_err(results: Seq<ConsumerResult>, a: Seq<(int, int)>, i: nat, n: nat)
    requires
        i <= n,
        merge_spec(results, a, i) is Err,
    ensures
        merge_spec(results, a, n) == merge_spec(results, a, i),
    decreases n - i,
{
    if i < n {
        lemma_merge_err(results, a, i, (n - 1) as nat);
    }
}

proof fn lemma_yielded_prefix(s: Seq<ConsumerResult>, j: int)
    requires
        0 <= j <= s.len(),
    ensures
        yielded_items(s.subrange(0, j)).len() <= yielded_items(s).len(),
        forall|i: int| 0 <= i < yielded_items(s.subrange(0, j)).len() ==> yielded_items(s.subrange(0, j))[i] == yielded_items(s)[i],
    decreases s.len(),
{
    if j < s.len() {
        let d = s.drop_last();
        assert(d.subrange(0, j) =~= s.subrange(0, j));
        lemma_yielded_prefix(d, j);
    } else {
        assert(s.subrange(0, j) =~= s);
    }
}

/// Merge the values that concurrently run blocks yielded: a value changed
/// by one block replaces the unchanged ones of the others, unchanged values
/// keep the first, and two blocks changing one name is an error. The result
/// gives, per name, the consumer and position of the value that stands and
/// whether it was changed.
#[verifier::loop_isolation(false)]
#[verifier::rlimit(60)]
pub fn merge_consumer_results(results: &[ConsumerResult]) -> (r: Result<StringHashMap<(usize, usize, bool)>, MergeError>)
    ensures
        match merge_spec(results@, yielded_items(results@), yielded_items(results@).len()) {
            Ok(m) => r matches Ok(rm) && rm@.dom() == m.dom() && forall|k: Seq<char>|
                #[trigger] rm@.contains_key(k) ==> (rm@[k].0 as int, rm@[k].1 as int, rm@[k].2) == m[k],
            Err(e) => r == Err::<StringHashMap<(usize, usize, bool)>, MergeError>(e),
        },
{
    let mut merged: StringHashMap<(usize, usize, bool)> = StringHashMap::new();
    let ghost mut items: Seq<(int, int)> = Seq::empty();
    let ghost all = yielded_items(results@);
    let mut c: usize = 0;
    assert(results@.subrange(0, 0) =~= Seq::<ConsumerResult>::empty());
    assert(merged@.dom() =~= Map::<Seq<char>, (int, int, bool)>::empty().dom());
    while c < results.len()
        invariant
            c <= results@.len(),
            all == yielded_items(results@),
            items == yielded_items(results@.subrange(0, c as int)),
            merge_spec(results@, items, items.len()) matches Ok(m) && merged@.dom() == m.dom() && forall|k: Seq<char>|
                #[trigger] merged@.contains_key(k) ==> (merged@[k].0 as int, merged@[k].1 as int, merged@[k].2) == m[k],
        decreases results@.len() - c,
    {
        let res = &results[c];
        let mut k: usize = 0;
        let ghost base = items;
        let ghost upto = yielded_items(results@.subrange(0, c + 1));
        proof {
            assert(results@.subrange(0, c + 1).drop_last() =~= results@.subrange(0, c as int));
            assert(upto == base + Seq::new(res.yielded@.len(), |j: int| (c as int, j)));
            lemma_yielded_prefix(results@, c + 1);
        }
        while k < res.yielded.len()
            invariant
                k <= res.yielded@.len(),
                c < results@.len(),
                res == results@[c as int],
                all == yielded_items(results@),
                upto == base + Seq::new(res.yielded@.len(), |j: int| (c as int, j)),
                upto.len() <= all.len(),
                forall|i: int| 0 <= i < upto.len() ==> upto[i] == all[i],
                items == base + Seq::new(k as nat, |j: int| (c as int, j)),
                merge_spec(results@, items, items.len()) matches Ok(m) && merged@.dom() == m.dom() && forall|kk: Seq<char>|
                    #[trigger] merged@.contains_key(kk) ==> (merged@[kk].0 as int, merged@[kk].1 as int, merged@[kk].2) == m[kk],
            decreases res.yielded@.len() - k,
        {
            let name = &res.yielded[k].0;
            let mutated = contains_name(res.mutated.as_slice(), name);
            let ghost old_items = items;
            let ghost prev = merge_spec(results@, old_items, old_items.len())->Ok_0;
            proof {
                items = old_items.push((c as int, k as int));
                assert(items =~= base + Seq::new((k + 1) as nat, |j: int| (c as int, j)));
                lemma_merge_prefix(results@, items, old_items, old_items.len());
                assert(results@[c as int].yielded@[k as int].0@ == name@);
                assert(mutated == mutated_by(results@[c as int], name@));
                assert forall|i: int| 0 <= i < items.len() implies items[i] == all[i] by {
                    assert(items[i] == upto[i]);
                }
            }
            match merged.get(name.as_str()) {
                Some(existing) => {
                    let ex = existing.2;
                    if ex && mutated {
                        proof {
                            assert(merge_spec(results@, items, items.len()) is Err);
                            lemma_merge_prefix(results@, all, items, items.len());
                            lemma_merge_err(results@, all, items.len(), all.len());
                        }
                        return Err(MergeError::MultipleMutators);
                    }
                    if !ex && mutated {
                        merged.insert(name.clone(), (c, k, true));
                        proof {
                            let m2 = merge_spec(results@, items, items.len())->Ok_0;
                            assert(m2 == prev.insert(name@, (c as int, k as int, true)));
                            assert(merged@.dom() =~= m2.dom());
                        }
                    } else {
                        proof {
                            assert(merge_spec(results@, items, items.len()) == Ok::<Map<Seq<char>, (int, int, bool)>, MergeError>(prev));
                        }
                    }
                },
                None => {
                    merged.insert(name.clone(), (c, k, mutated));
                    proof {
                        let m2 = merge_spec(results@, items, items.len())->Ok_0;
                        assert(m2 == prev.insert(name@, (c as int, k as int, mutated)));
                        assert(merged@.dom() =~= m2.dom());
                    }
                },
            }
            k = k + 1;
        }
        proof {
            assert(items =~= upto);
        }
        c = c + 1;
    }
    assert(results@.subrange(0, results@.len() as int) =~= results@);
    Ok(merged)
}


/// Why a variable cannot stand for a scalar attribute.
#[derive(Clone, Copy, Debug, PartialEq, Eq, Structural)]
pub enum ScalarAttrError {
    NotScalar,
    FloatNeedsHost,
    TernaryUnsupported,
}

/// The low `w` bits of a packed storage byte, as a two's-complement value.
pub open spec fn packed_signed(b: u64, w: nat) -> int {
    let m = pow2_small(w);
    let v = (b as int) % m;
    if v < m / 2 {
        v
    } else {
        v - m
    }
}

/// `2^w` for the packed widths.
pub open spec fn pow2_small(w: nat) -> int {
    if w == 1 {
        2
    } else if w == 2 {
        4
    } else {
        16
    }
}

/// The attribute value a one-element tensor stands for: 32-bit floats and
/// doubles by their bits, integers by value, booleans, bitsets as unsigned,
/// and packed integers from the low bits of the first storage byte; half
/// and bfloat16 floats widened exactly to single precision. The 8-bit float
/// is left to the host.
pub open spec fn scalar_attr_spec(t: TensorView) -> Result<crate::vk_common::AttrValue, ScalarAttrError> {
    if numel(t.shape) != 1 {
        Err(ScalarAttrError::NotScalar)
    } else {
        let v = t.data[0];
        match t.dtype {
            DType::F32 => Ok(crate::vk_common::AttrValue::Float(v as u32)),
            DType::F64 => Ok(crate::vk_common::AttrValue::Double(v)),
            DType::F16 => Ok(crate::vk_common::AttrValue::Float(half_to_single(v))),
            DType::BF16 => Ok(crate::vk_common::AttrValue::Float((v as int * 0x10000) as u32)),
            DType::F8 => Err(ScalarAttrError::FloatNeedsHost),
            DType::I8 | DType::I16 | DType::I32 | DType::I64 => Ok(
                crate::vk_common::AttrValue::Int(signed_of(v, bits_of(t.dtype)) as i64),
            ),
            DType::U8 | DType::U16 | DType::U32 | DType::U64 | DType::Bitset => Ok(
                crate::vk_common::AttrValue::UInt(v),
            ),
            DType::Bool => Ok(crate::vk_common::AttrValue::Bool(v != 0)),
            DType::I1 | DType::I2 | DType::I4 => Ok(
                crate::vk_common::AttrValue::Int(packed_signed(v, bits_of(t.dtype)) as i64),
            ),
            DType::U1 | DType::U2 | DType::U4 => Ok(
                crate::vk_common::AttrValue::UInt(((v as int) % pow2_small(bits_of(t.dtype))) as u64),
            ),
            DType::T1 | DType::T2 => Err(ScalarAttrError::TernaryUnsupported),
        }
    }
}

/// The attribute value a variable stands for, as `scalar_attr_spec` gives
/// it.
pub fn resolve_scalar_attr(tensor: &TensorValue) -> (r: Result<crate::vk_common::AttrValue, ScalarAttrError>)
    requires
        tensor.wf(),
    ensures
        r == scalar_attr_spec(tensor@),
{
    if tensor.len() != 1 {
        return Err(ScalarAttrError::NotScalar);
    }
    let v = tensor.data[0];
    let d = tensor.dtype;
    match d {
        DType::F32 => Ok(crate::vk_common::AttrValue::Float(v as u32)),
        DType::F64 => Ok(crate::vk_common::AttrValue::Double(v)),
        DType::F16 => Ok(crate::vk_common::AttrValue::Float(half_to_single_exec(v))),
        DType::BF16 => {
            assert(v <= 0xFFFF);
            Ok(crate::vk_common::AttrValue::Float((v * 0x10000) as u32))
        },
        DType::F8 => Err(ScalarAttrError::FloatNeedsHost),
        DType::I8 | DType::I16 | DType::I32 | DType::I64 => {
            let x = crate::cache_utils::signed_value(v, d.bit_width());
            Ok(crate::vk_common::AttrValue::Int(x))
        },
        DType::U8 | DType::U16 | DType::U32 | DType::U64 | DType::Bitset => Ok(crate::vk_common::AttrValue::UInt(v)),
        DType::Bool => Ok(crate::vk_common::AttrValue::Bool(v != 0)),
        DType::I1 | DType::I2 | DType::I4 => {
            let m: u64 = if d == DType::I1 {
                2
            } else if d == DType::I2 {
                4
            } else {
                16
            };
            let low = v % m;
            let x: i64 = if low < m / 2 {
                low as i64
            } else {
                low as i64 - m as i64
            };
            Ok(crate::vk_common::AttrValue::Int(x))
        },
        DType::U1 | DType::U2 | DType::U4 => {
            let m: u64 = if d == DType::U1 {
                2
            } else if d == DType::U2 {
                4
            } else {
                16
            };
            Ok(crate::vk_common::AttrValue::UInt(v % m))
        },
        DType::T1 | DType::T2 => Err(ScalarAttrError::TernaryUnsupported),
    }
}

} // verus!
