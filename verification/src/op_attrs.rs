//! Operator attributes that name a variable: such an attribute stands for
//! the variable's string metadata value, or else for its scalar value.
use vstd::prelude::*;
use crate::dtype::DType;
use crate::model_loader::{meta_string_spec, VT_STRING};
use crate::oinf::LoadError;
use crate::runtime::{resolve_scalar_attr, scalar_attr_spec, ScalarAttrError};
use crate::state::{get_tensor_post, RuntimeState, StateError};
use crate::tensor::TensorValue;
use crate::vk_common::{AttrValue, OpAttr, OpAttrs};

verus! {

/// Why an attribute that names a variable has no value.
#[derive(Clone, Copy, Debug, PartialEq, Eq, Structural)]
pub enum AttrError {
    Load(LoadError),
    State(StateError),
    Scalar(ScalarAttrError),
}

/// Two attribute values are the same, lists by their elements.
pub open spec fn same_attr(a: AttrValue, b: AttrValue) -> bool {
    match (a, b) {
        (AttrValue::Float(x), AttrValue::Float(y)) => x == y,
        (AttrValue::Double(x), AttrValue::Double(y)) => x == y,
        (AttrValue::Int(x), AttrValue::Int(y)) => x == y,
        (AttrValue::UInt(x), AttrValue::UInt(y)) => x == y,
        (AttrValue::Bool(x), AttrValue::Bool(y)) => x == y,
        (AttrValue::Str(x), AttrValue::Str(y)) => x@ == y@,
        (AttrValue::IntList(x), AttrValue::IntList(y)) => x@ == y@,
        (AttrValue::Var(x), AttrValue::Var(y)) => x@ == y@,
        (AttrValue::DType(x), AttrValue::DType(y)) => x == y,
        (AttrValue::DTypeList(x), AttrValue::DTypeList(y)) => x@ == y@,
        _ => false,
    }
}

fn copy_i64s(v: &Vec<i64>) -> (r: Vec<i64>)
    ensures
        r@ == v@,
{
    let mut out: Vec<i64> = Vec::new();
    let mut i: usize = 0;
    while i < v.len()
        invariant
            i <= v@.len(),
            out@ == v@.subrange(0, i as int),
        decreases v@.len() - i,
    {
        out.push(v[i]);
        i = i + 1;
    }
    assert(out@ =~= v@);
    out
}

fn copy_dtype_list(v: &Vec<DType>) -> (r: Vec<DType>)
    ensures
        r@ == v@,
{
    let mut out: Vec<DType> = Vec::new();
    let mut i: usize = 0;
    while i < v.len()
        invariant
            i <= v@.len(),
            out@ == v@.subrange(0, i as int),
        decreases v@.len() - i,
    {
        out.push(v[i]);
        i = i + 1;
    }
    assert(out@ =~= v@);
    out
}

/// A copy of an attribute value.
pub fn copy_attr_value(v: &AttrValue) -> (r: AttrValue)
    ensures
        same_attr(r, *v),
{
    match v {
        AttrValue::Float(x) => AttrValue::Float(*x),
        AttrValue::Double(x) => AttrValue::Double(*x),
        AttrValue::Int(x) => AttrValue::Int(*x),
        AttrValue::UInt(x) => AttrValue::UInt(*x),
        AttrValue::Bool(x) => AttrValue::Bool(*x),
        AttrValue::Str(x) => AttrValue::Str(x.clone()),
        AttrValue::IntList(x) => AttrValue::IntList(copy_i64s(x)),
        AttrValue::Var(x) => AttrValue::Var(x.clone()),
        AttrValue::DType(x) => AttrValue::DType(*x),
        AttrValue::DTypeList(x) => AttrValue::DTypeList(copy_dtype_list(x)),
    }
}

/// What resolving one attribute value gives and leaves: a value that names
/// a variable becomes the variable's string metadata value, or else the
/// variable is read (see `get_tensor_post`) and its scalar stands for it
/// (see `scalar_attr_spec`); any other value stays.
pub open spec fn resolve_one(before: RuntimeState, after: RuntimeState, v: AttrValue, r: Result<AttrValue, AttrError>) -> bool {
    match v {
        AttrValue::Var(name) => if before.model.metadata@.contains_key(name@)
            && before.model.metadata@[name@].value_type == VT_STRING {
            match meta_string_spec(before.model.data@, before.model.metadata@[name@]@) {
                Ok(t) => (r matches Ok(AttrValue::Str(s)) && s@ == t) && after == before,
                Err(e) => r == Err::<AttrValue, AttrError>(AttrError::Load(e)) && after == before,
            }
        } else {
            exists|t: Result<TensorValue, StateError>|
                #![trigger get_tensor_post(before, after, name@, t)]
                get_tensor_post(before, after, name@, t) && match t {
                    Err(e) => r == Err::<AttrValue, AttrError>(AttrError::State(e)),
                    Ok(tv) => match scalar_attr_spec(tv@) {
                        Ok(a) => r == Ok::<AttrValue, AttrError>(a),
                        Err(e) => r == Err::<AttrValue, AttrError>(AttrError::Scalar(e)),
                    },
                }
        },
        _ => (r matches Ok(a) && same_attr(a, v)) && after == before,
    }
}

/// The states resolving the first `n` attributes goes through, giving the
/// values `vals`.
pub open spec fn resolve_trace(states: Seq<RuntimeState>, items: Seq<OpAttr>, vals: Seq<AttrValue>, n: nat) -> bool {
    &&& states.len() == n + 1
    &&& forall|j: int|
        0 <= j < n ==> #[trigger] resolve_one(states[j], states[j + 1], items[j].value, Ok::<AttrValue, AttrError>(vals[j]))
}

/// The values of resolved attributes.
pub open spec fn attr_values(a: OpAttrs) -> Seq<AttrValue> {
    Seq::new(a.items@.len(), |j: int| a.items@[j].value)
}

/// One attribute value (see `resolve_one`).
fn resolve_value(state: &mut RuntimeState, v: &AttrValue) -> (r: Result<AttrValue, AttrError>)
    requires
        old(state).wf(),
    ensures
        final(state).wf(),
        resolve_one(*old(state), *final(state), *v, r),
{
    match v {
        AttrValue::Var(name) => {
            match state.model.load_metadata_string(name.as_str()) {
                Err(e) => return Err(AttrError::Load(e)),
                Ok(Some(s)) => return Ok(AttrValue::Str(s)),
                Ok(None) => {},
            }
            let t = state.get_tensor(name.as_str());
            let ghost tg = t;
            assert(get_tensor_post(*old(state), *state, name@, tg));
            match t {
                Err(e) => Err(AttrError::State(e)),
                Ok(tv) => match resolve_scalar_attr(&tv) {
                    Ok(a) => Ok(a),
                    Err(e) => Err(AttrError::Scalar(e)),
                },
            }
        },
        _ => Ok(copy_attr_value(v)),
    }
}

/// Resolve the attributes of an operator node in order (see `resolve_one`):
/// names are kept, and the first attribute that cannot be resolved stops it.
pub fn resolve_op_attrs(state: &mut RuntimeState, attrs: &OpAttrs) -> (r: Result<OpAttrs, AttrError>)
    requires
        old(state).wf(),
    ensures
        final(state).wf(),
        r matches Ok(out) ==> out.items@.len() == attrs.items@.len() && (forall|j: int|
            0 <= j < attrs.items@.len() ==> (#[trigger] out.items@[j]).name@ == attrs.items@[j].name@)
            && exists|states: Seq<RuntimeState>|
            #![trigger resolve_trace(states, attrs.items@, attr_values(out), attrs.items@.len())]
            resolve_trace(states, attrs.items@, attr_values(out), attrs.items@.len()) && states[0] == *old(state)
                && states.last() == *final(state),
        r matches Err(e) ==> exists|states: Seq<RuntimeState>, vals: Seq<AttrValue>, j: nat|
            #![trigger resolve_trace(states, attrs.items@, vals, j)]
            j < attrs.items@.len() && resolve_trace(states, attrs.items@, vals, j) && states[0] == *old(state)
                && resolve_one(states.last(), *final(state), attrs.items@[j as int].value, Err::<AttrValue, AttrError>(e)),
{
    let mut items: Vec<OpAttr> = Vec::new();
    let ghost mut states: Seq<RuntimeState> = seq![*state];
    let mut k: usize = 0;
    while k < attrs.items.len()
        invariant
            state.wf(),
            k <= attrs.items@.len(),
            items@.len() == k,
            forall|j: int| 0 <= j < k ==> (#[trigger] items@[j]).name@ == attrs.items@[j].name@,
            resolve_trace(states, attrs.items@, Seq::new(k as nat, |j: int| items@[j].value), k as nat),
            states[0] == *old(state),
            states.last() == *state,
        decreases attrs.items@.len() - k,
    {
        let ghost before = *state;
        let ghost vals = Seq::new(k as nat, |j: int| items@[j].value);
        let item = &attrs.items[k];
        let rv = resolve_value(state, &item.value);
        let value = match rv {
            Ok(v) => v,
            Err(e) => {
                assert(resolve_trace(states, attrs.items@, vals, k as nat));
                assert(states.last() == before);
                return Err(e);
            },
        };
        items.push(OpAttr { name: item.name.clone(), value });
        proof {
            let nvals = Seq::new((k + 1) as nat, |j: int| items@[j].value);
            let nstates = states.push(*state);
            assert forall|j: int| 0 <= j < k + 1 implies #[trigger] resolve_one(
                nstates[j],
                nstates[j + 1],
                attrs.items@[j].value,
                Ok::<AttrValue, AttrError>(nvals[j]),
            ) by {
                if j < k {
                    assert(nstates[j] == states[j] && nstates[j + 1] == states[j + 1] && nvals[j] == vals[j]);
                    assert(resolve_one(states[j], states[j + 1], attrs.items@[j].value, Ok::<AttrValue, AttrError>(vals[j])));
                }
            }
            states = nstates;
        }
        k = k + 1;
    }
    let out = OpAttrs { items };
    assert(attr_values(out) =~= Seq::new(k as nat, |j: int| out.items@[j].value));
    Ok(out)
}

} // verus!
