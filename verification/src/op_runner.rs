//! Choosing the kernel that runs an operator node: broadcasting and in-place
//! mode from the operator's schema, the accumulation rule from the node's
//! attributes, and the registered kernel for the resulting key.
use vstd::prelude::*;
use crate::dtype::DType;
use crate::tensor::TensorValue;
use crate::vk_common::{attr_pos, find_attr, AttrValue, OpAttrs};
use crate::vk_dispatch::{dtypes_of, last_match, lookup_kernel, rule_view, OpKey, OpKeyView, OpKind, OpMode};

verus! {

/// What an operator's schema says about how it may run.
#[derive(Clone, Copy, Debug)]
pub struct OpSchemaInfo {
    pub supports_broadcast: bool,
    pub supports_inplace: bool,
    pub has_accumulation_rules: bool,
}

/// Why an operator node cannot run.
#[derive(Clone, Copy, Debug, PartialEq, Eq, Structural)]
pub enum ExecOpError {
    UnsupportedTyping,
    NoKernel,
}

/// Input `i` and the next one differ in shape.
pub open spec fn differs_from_next(inputs: Seq<TensorValue>, i: int) -> bool {
    inputs[i].shape@ != inputs[i + 1].shape@
}

/// Two neighbouring inputs differ in shape.
pub open spec fn shapes_differ(inputs: Seq<TensorValue>) -> bool {
    exists|i: int| 0 <= i && i + 1 < inputs.len() && #[trigger] differs_from_next(inputs, i)
}

/// The accumulation rule: for an operator with accumulation rules, the
/// type list of its first `acc` attribute; nothing otherwise.
pub open spec fn acc_rule_of(schema: OpSchemaInfo, attrs: OpAttrs) -> Option<Seq<DType>> {
    if !schema.has_accumulation_rules {
        None
    } else {
        match attr_pos(attrs.items@, "acc"@) {
            Some(i) => match attrs.items@[i].value {
                AttrValue::DTypeList(rule) => Some(rule@),
                _ => None,
            },
            None => None,
        }
    }
}

/// The key an operator node is run under.
pub open spec fn exec_key_spec(
    op: OpKind,
    schema: OpSchemaInfo,
    inputs: Seq<TensorValue>,
    output_dtype: DType,
    attrs: OpAttrs,
    is_inplace: bool,
) -> OpKeyView {
    OpKeyView {
        kind: op,
        mode: if schema.supports_inplace && is_inplace {
            OpMode::Inplace
        } else {
            OpMode::Normal
        },
        broadcast: schema.supports_broadcast && shapes_differ(inputs),
        inputs: dtypes_of(inputs),
        out0: output_dtype,
        acc_rule: acc_rule_of(schema, attrs),
    }
}

fn copy_dtypes(v: &Vec<DType>) -> (r: Vec<DType>)
    ensures
        r@ == v@,
{
    let mut r: Vec<DType> = Vec::new();
    let mut i: usize = 0;
    while i < v.len()
        invariant
            i <= v@.len(),
            r@ == v@.subrange(0, i as int),
        decreases v.len() - i,
    {
        r.push(v[i]);
        i = i + 1;
        assert(r@ =~= v@.subrange(0, i as int));
    }
    assert(r@ =~= v@);
    r
}

fn shape_eq(a: &Vec<usize>, b: &Vec<usize>) -> (r: bool)
    ensures
        r == (a@ == b@),
{
    if a.len() != b.len() {
        return false;
    }
    let mut i: usize = 0;
    while i < a.len()
        invariant
            i <= a@.len() == b@.len(),
            forall|j: int| 0 <= j < i ==> a@[j] == b@[j],
        decreases a@.len() - i,
    {
        if a[i] != b[i] {
            return false;
        }
        i = i + 1;
    }
    assert(a@ =~= b@);
    true
}

/// Whether two neighbouring inputs differ in shape.
pub fn any_shape_differs(inputs: &[TensorValue]) -> (r: bool)
    ensures
        r == shapes_differ(inputs@),
{
    let mut i: usize = 1;
    while i < inputs.len()
        invariant
            1 <= i,
            forall|j: int| 0 <= j && j + 1 < i && j + 1 < inputs@.len() ==> !#[trigger] differs_from_next(inputs@, j),
        decreases inputs.len() - i,
    {
        if !shape_eq(&inputs[i - 1].shape, &inputs[i].shape) {
            assert(differs_from_next(inputs@, i - 1));
            return true;
        }
        i = i + 1;
    }
    false
}

/// The accumulation rule a node's kernel is chosen by.
pub fn resolve_acc_rule(schema: &OpSchemaInfo, attrs: &OpAttrs) -> (r: Option<Vec<DType>>)
    ensures
        rule_view(r) == acc_rule_of(*schema, *attrs),
{
    if !schema.has_accumulation_rules {
        return None;
    }
    match find_attr(attrs, "acc") {
        Some(i) => match &attrs.items[i].value {
            AttrValue::DTypeList(rule) => Some(copy_dtypes(rule)),
            _ => None,
        },
        None => None,
    }
}

/// The kernel key for an operator node, as `exec_key_spec` gives it.
pub fn exec_key(
    op: OpKind,
    schema: &OpSchemaInfo,
    inputs: &[TensorValue],
    output_dtype: DType,
    attrs: &OpAttrs,
    is_inplace: bool,
) -> (r: OpKey)
    ensures
        r@ == exec_key_spec(op, *schema, inputs@, output_dtype, *attrs, is_inplace),
{
    let broadcast = schema.supports_broadcast && any_shape_differs(inputs);
    let mode = if schema.supports_inplace && is_inplace {
        OpMode::Inplace
    } else {
        OpMode::Normal
    };
    let mut types: Vec<DType> = Vec::new();
    let mut i: usize = 0;
    while i < inputs.len()
        invariant
            i <= inputs@.len(),
            types@ == dtypes_of(inputs@).subrange(0, i as int),
        decreases inputs.len() - i,
    {
        types.push(inputs[i].dtype);
        i = i + 1;
        assert(types@ =~= dtypes_of(inputs@).subrange(0, i as int));
    }
    assert(types@ =~= dtypes_of(inputs@));
    let acc_rule = resolve_acc_rule(schema, attrs);
    OpKey { kind: op, mode, broadcast, inputs: types, out0: output_dtype, acc_rule }
}

/// Choose the kernel for an operator node: the typing must be one the
/// operator supports, and then the kernel registered last for the node's
/// key (see `exec_key_spec`) runs. The result is that key and the kernel's
/// registry index. The node's attributes go to the kernel as they are: an
/// accumulation rule is only ever taken from an `acc` attribute they
/// already hold.
pub fn exec_op(
    op: OpKind,
    schema: &OpSchemaInfo,
    inputs: &[TensorValue],
    output_dtype: DType,
    typing_supported: bool,
    attrs: &OpAttrs,
    is_inplace: bool,
    registry: &[(OpKey, usize)],
) -> (r: Result<(OpKey, usize), ExecOpError>)
    ensures
        !typing_supported ==> r == Err::<(OpKey, usize), ExecOpError>(ExecOpError::UnsupportedTyping),
        typing_supported ==> match last_match(
            registry@,
            exec_key_spec(op, *schema, inputs@, output_dtype, *attrs, is_inplace),
            registry@.len(),
        ) {
            Some(i) => r matches Ok((k, id)) && k@ == exec_key_spec(
                op,
                *schema,
                inputs@,
                output_dtype,
                *attrs,
                is_inplace,
            ) && id == registry@[i].1,
            None => r == Err::<(OpKey, usize), ExecOpError>(ExecOpError::NoKernel),
        },
{
    if !typing_supported {
        return Err(ExecOpError::UnsupportedTyping);
    }
    let key = exec_key(op, schema, inputs, output_dtype, attrs, is_inplace);
    match lookup_kernel(registry, &key) {
        Ok(id) => Ok((key, id)),
        Err(_) => Err(ExecOpError::NoKernel),
    }
}

} // verus!
