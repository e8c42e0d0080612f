//! The structural parser boundary: the external collaborator that turns raw
//! bytes into the intermediate value tree and back. The parser itself is
//! serde_json, called through trusted wrappers; everything downstream of the
//! tree is verified.

use vstd::prelude::*;
use crate::value::{IntermediateValue, NumberValue, kind_of, lookup, unique_keys, is_scalar};
use crate::shape::ShapeDescriptor;
use crate::resolve::{ResolvedValue, Resolution, resolve_model, resolve};
use crate::error::{ParseError, ResolveError, DecodeError};
use crate::resolve::failures_view;

verus! {

/// What the structural parser yields for these bytes: the value tree of
/// the one JSON document they hold, or nothing when the parser rejects
/// them (bytes that are not one well-formed JSON document, or that nest
/// beyond the parser's depth limit). The result is a function of the bytes
/// alone.
pub uninterp spec fn json_tree(bytes: Seq<u8>) -> Option<IntermediateValue>;

#[verifier::external_type_specification]
#[verifier::external_body]
pub struct ExValue(serde_json::Value);

/// Part of the parsing trust boundary, reached only from `parse_payload`:
/// reads serde_json's value tree into the library's representation, node
/// for node. Relies on the variants of serde_json::Value, and on
/// serde_json::Number::as_i64, which returns the number exactly when it is
/// an integer within `i64` range.
#[verifier::external_body]
fn read_node(v: serde_json::Value) -> IntermediateValue {
    match v {
        serde_json::Value::Null => IntermediateValue::Null,
        serde_json::Value::Bool(b) => IntermediateValue::Boolean(b),
        serde_json::Value::Number(n) => match n.as_i64() {
            Some(i) => IntermediateValue::Number(NumberValue::Integer(i)),
            None => IntermediateValue::Number(NumberValue::Fractional),
        },
        serde_json::Value::String(s) => IntermediateValue::Text(s),
        serde_json::Value::Array(items) => IntermediateValue::Sequence(
            items.into_iter().map(read_node).collect(),
        ),
        serde_json::Value::Object(members) => IntermediateValue::Mapping(
            members.into_iter().map(|(k, w)| (k, read_node(w))).collect(),
        ),
    }
}

/// Relies on serde_json::from_slice for serde_json::Value: it returns a
/// value exactly when it accepts the bytes as one JSON document, never
/// panics, and its result depends on the bytes alone.
#[verifier::external_body]
fn parse_payload(bytes: &[u8]) -> (r: Result<IntermediateValue, ParseError>)
    ensures
        match r {
            Result::Ok(v) => json_tree(bytes@) == Option::Some(v),
            Result::Err(_) => json_tree(bytes@) is None,
        },
{
    match serde_json::from_slice::<serde_json::Value>(bytes) {
        Ok(v) => Ok(read_node(v)),
        Err(e) => Err(ParseError { message: e.to_string() }),
    }
}

/// Two optional values of the same structural kind, or both absent.
pub open spec fn same_shape(a: Option<IntermediateValue>, b: Option<IntermediateValue>) -> bool {
    match (a, b) {
        (Option::None, Option::None) => true,
        (Option::Some(x), Option::Some(y)) => kind_of(x) == kind_of(y),
        _ => false,
    }
}

/// Parsing `bytes` yields a mapping that carries the same fields as
/// `fields`: under every key, a value of the same structural kind, or
/// absence on both sides.
pub open spec fn reparses_to(bytes: Seq<u8>, fields: Seq<(String, IntermediateValue)>) -> bool {
    match json_tree(bytes) {
        Option::Some(IntermediateValue::Mapping(entries)) => unique_keys(entries@) && forall|
            k: Seq<char>,
        | same_shape(#[trigger] lookup(entries@, k), lookup(fields, k)),
        _ => false,
    }
}

/// Relies on serde_json::to_vec on a serde_json::Value, which cannot fail
/// for a string-keyed map, and on serde_json reading back exactly the
/// object it wrote: JSON carries `i64` integers, strings and booleans
/// exactly, and an object carries one member per distinct key.
#[verifier::external_body]
fn write_record(fields: &Vec<(String, IntermediateValue)>) -> (r: Vec<u8>)
    requires
        unique_keys(fields@),
        forall|i: int| 0 <= i < fields@.len() ==> is_scalar(#[trigger] fields@[i].1),
    ensures
        reparses_to(r@, fields@),
{
    let mut m = serde_json::Map::new();
    for (k, v) in fields.iter() {
        m.insert(k.clone(), match v {
            IntermediateValue::Number(NumberValue::Integer(i)) => serde_json::Value::from(*i),
            IntermediateValue::Text(s) => serde_json::Value::from(s.clone()),
            IntermediateValue::Boolean(b) => serde_json::Value::from(*b),
            _ => serde_json::Value::Null,
        });
    }
    serde_json::to_vec(&serde_json::Value::Object(m)).unwrap()
}

/// No two of the fields share a key.
pub fn keys_unique(fields: &Vec<(String, IntermediateValue)>) -> (r: bool)
    ensures
        r == unique_keys(fields@),
{
    let n: usize = fields.len();
    let mut i: usize = 0;
    while i < n
        invariant
            n == fields@.len(),
            0 <= i <= n,
            forall|a: int, b: int| 0 <= a < b < n && a < i ==> fields@[a].0@ != fields@[b].0@,
        decreases n - i,
    {
        let mut j: usize = i + 1;
        while j < n
            invariant
                n == fields@.len(),
                0 <= i < j <= n,
                forall|b: int| i < b < j ==> fields@[i as int].0@ != fields@[b].0@,
            decreases n - j,
        {
            if fields[i].0 == fields[j].0 {
                return false;
            }
            j += 1;
        }
        i += 1;
    }
    true
}

/// Every field's value is a scalar.
pub fn all_scalar(fields: &Vec<(String, IntermediateValue)>) -> (r: bool)
    ensures
        r == forall|i: int| 0 <= i < fields@.len() ==> is_scalar(#[trigger] fields@[i].1),
{
    let n: usize = fields.len();
    let mut i: usize = 0;
    while i < n
        invariant
            n == fields@.len(),
            0 <= i <= n,
            forall|a: int| 0 <= a < i ==> is_scalar(#[trigger] fields@[a].1),
        decreases n - i,
    {
        if !fields[i].1.scalar() {
            return false;
        }
        i += 1;
    }
    true
}

/// Encode a resolved payload back into the structural parser's serialized
/// form. Succeeds exactly when the payload's keys are distinct and every
/// value is a scalar; the bytes then parse back to a mapping carrying the
/// same fields.
pub fn encode_record(fields: &Vec<(String, IntermediateValue)>) -> (r: Option<Vec<u8>>)
    ensures
        match r {
            Option::Some(bytes) => unique_keys(fields@) && (forall|i: int|
                0 <= i < fields@.len() ==> is_scalar(#[trigger] fields@[i].1)) && reparses_to(
                bytes@,
                fields@,
            ),
            Option::None => !(unique_keys(fields@) && (forall|i: int|
                0 <= i < fields@.len() ==> is_scalar(#[trigger] fields@[i].1))),
        },
{
    if keys_unique(fields) && all_scalar(fields) {
        Option::Some(write_record(fields))
    } else {
        Option::None
    }
}

/// What decoding these bytes against these descriptors yields: a function
/// of the two inputs alone.
pub open spec fn decode_model(bytes: Seq<u8>, descs: Seq<ShapeDescriptor>) -> Resolution {
    match json_tree(bytes) {
        Option::None => Resolution::Malformed,
        Option::Some(v) => resolve_model(descs, v, false),
    }
}

/// A returned decode result, abstracted to the outcome it reports.
pub open spec fn decode_view(r: Result<ResolvedValue, DecodeError>) -> Resolution {
    match r {
        Result::Ok(rv) => Resolution::Bound(rv.index as int, rv.shape, rv.fields@),
        Result::Err(DecodeError::Parse(_)) => Resolution::Malformed,
        Result::Err(DecodeError::Resolve(ResolveError::Configuration)) => Resolution::NoDescriptors,
        Result::Err(DecodeError::Resolve(ResolveError::NoMatch(agg))) => Resolution::Unbound(
            failures_view(agg.failures@),
        ),
    }
}

/// Decode one serialized record: parse the bytes, then resolve the tree
/// against the descriptors in order under the default policy. Bytes that
/// are not well-formed serialized data are a single terminal parse error;
/// shape resolution is not attempted on them.
pub fn decode(bytes: &[u8], descriptors: &Vec<ShapeDescriptor>) -> (r: Result<
    ResolvedValue,
    DecodeError,
>)
    ensures
        decode_view(r) == decode_model(bytes@, descriptors@),
{
    match parse_payload(bytes) {
        Result::Ok(v) => match resolve(v, descriptors) {
            Result::Ok(rv) => Result::Ok(rv),
            Result::Err(e) => Result::Err(DecodeError::Resolve(e)),
        },
        Result::Err(pe) => Result::Err(DecodeError::Parse(pe)),
    }
}

} // verus!
