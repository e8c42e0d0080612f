//! The error taxonomy: parse failure, per-descriptor binding failures, the
//! aggregate of all binding failures, and the configuration error.

use vstd::prelude::*;
use crate::shape::FieldType;
use crate::value::ValueKind;

verus! {

/// The payload is not syntactically valid serialized data at all. Fatal to
/// the call; no shape resolution is attempted.
#[derive(Debug, Clone, PartialEq, Eq)]
pub struct ParseError {
    /// The parser's own description of the fault.
    pub message: String,
}

/// Why one descriptor rejected the value. Recovered locally: resolution
/// proceeds to the next descriptor.
#[derive(Debug, Clone, PartialEq, Eq)]
pub enum BindingError {
    /// A required field is absent from the mapping.
    MissingField(String),
    /// A required field is present but its value has the wrong kind.
    TypeMismatch { field: String, expected: FieldType, actual: ValueKind },
    /// The mapping carries a field the descriptor does not declare; reported
    /// only under the strict extra-field policy.
    UnknownField(String),
    /// The value is not a mapping at all; no field checks are attempted.
    NotARecord,
}

/// One descriptor's rejection: the shape's name and every reason binding
/// failed, in field order.
#[derive(Debug, Clone, PartialEq, Eq)]
pub struct DescriptorFailure {
    pub shape: String,
    pub errors: Vec<BindingError>,
}

/// Returned only after every descriptor has been tried: one entry per
/// descriptor, in descriptor order, so no diagnostic is lost.
#[derive(Debug, Clone, PartialEq, Eq)]
pub struct AggregateBindingError {
    pub failures: Vec<DescriptorFailure>,
}

/// Why resolution returned no value.
#[derive(Debug, Clone, PartialEq, Eq)]
pub enum ResolveError {
    /// The descriptor sequence was empty: a configuration error, detected
    /// before any binding attempt.
    Configuration,
    /// Every descriptor rejected the value.
    NoMatch(AggregateBindingError),
}

/// Why decoding returned no value.
#[derive(Debug, Clone, PartialEq, Eq)]
pub enum DecodeError {
    /// The bytes are not well-formed serialized data.
    Parse(ParseError),
    /// The bytes parsed, but resolution failed.
    Resolve(ResolveError),
}

} // verus!
