//! The intermediate value tree: a generic, format-agnostic representation of
//! one parsed record, prior to typed binding.

use vstd::prelude::*;

verus! {

/// A number as the tree carries it. The binder only ever needs to know
/// whether a number is an integer, and if so which one; a number with a
/// fractional component (or one outside the `i64` range) is kept only as
/// the fact that it is not an integer.
#[derive(Debug, Clone, PartialEq, Eq)]
pub enum NumberValue {
    /// A number with no fractional component, within `i64` range.
    Integer(i64),
    /// A number carrying a fractional component, or outside `i64` range.
    Fractional,
}

/// A parsed value: the recursive sum over null, booleans, numbers, strings,
/// sequences and string-keyed mappings.
#[derive(Debug, PartialEq, Eq)]
pub enum IntermediateValue {
    Null,
    Boolean(bool),
    Number(NumberValue),
    Text(String),
    Sequence(Vec<IntermediateValue>),
    Mapping(Vec<(String, IntermediateValue)>),
}

/// The structural kind of a value, as error reports name it.
#[derive(Debug, Clone, Copy, PartialEq, Eq, Structural)]
pub enum ValueKind {
    Null,
    Boolean,
    IntegralNumber,
    FractionalNumber,
    Text,
    Sequence,
    Mapping,
}

pub open spec fn kind_of(v: IntermediateValue) -> ValueKind {
    match v {
        IntermediateValue::Null => ValueKind::Null,
        IntermediateValue::Boolean(_) => ValueKind::Boolean,
        IntermediateValue::Number(NumberValue::Integer(_)) => ValueKind::IntegralNumber,
        IntermediateValue::Number(NumberValue::Fractional) => ValueKind::FractionalNumber,
        IntermediateValue::Text(_) => ValueKind::Text,
        IntermediateValue::Sequence(_) => ValueKind::Sequence,
        IntermediateValue::Mapping(_) => ValueKind::Mapping,
    }
}

/// A value that one field of a resolved record can carry faithfully through
/// re-encoding: a boolean, an integer, or a string.
pub open spec fn is_scalar(v: IntermediateValue) -> bool {
    match v {
        IntermediateValue::Boolean(_) => true,
        IntermediateValue::Number(NumberValue::Integer(_)) => true,
        IntermediateValue::Text(_) => true,
        _ => false,
    }
}

/// The value under `name` in a mapping's entry list: the first entry whose
/// key is `name`, if any.
pub open spec fn lookup(
    entries: Seq<(String, IntermediateValue)>,
    name: Seq<char>,
) -> Option<IntermediateValue>
    decreases entries.len(),
{
    if entries.len() == 0 {
        Option::None
    } else if entries[0].0@ == name {
        Option::Some(entries[0].1)
    } else {
        lookup(entries.drop_first(), name)
    }
}

/// No two entries share a key.
pub open spec fn unique_keys(entries: Seq<(String, IntermediateValue)>) -> bool {
    forall|i: int, j: int|
        0 <= i < j < entries.len() ==> entries[i].0@ != entries[j].0@
}

impl IntermediateValue {
    /// The structural kind of this value.
    pub fn kind(&self) -> (k: ValueKind)
        ensures
            k == kind_of(*self),
    {
        match self {
            IntermediateValue::Null => ValueKind::Null,
            IntermediateValue::Boolean(_) => ValueKind::Boolean,
            IntermediateValue::Number(NumberValue::Integer(_)) => ValueKind::IntegralNumber,
            IntermediateValue::Number(NumberValue::Fractional) => ValueKind::FractionalNumber,
            IntermediateValue::Text(_) => ValueKind::Text,
            IntermediateValue::Sequence(_) => ValueKind::Sequence,
            IntermediateValue::Mapping(_) => ValueKind::Mapping,
        }
    }

    /// Whether this value is a scalar: a boolean, an integer, or a string.
    pub fn scalar(&self) -> (r: bool)
        ensures
            r == is_scalar(*self),
    {
        match self {
            IntermediateValue::Boolean(_) => true,
            IntermediateValue::Number(NumberValue::Integer(_)) => true,
            IntermediateValue::Text(_) => true,
            _ => false,
        }
    }
}

/// The first entry of `entries` keyed by `name`, if any.
pub fn lookup_field<'a>(
    entries: &'a Vec<(String, IntermediateValue)>,
    name: &String,
) -> (r: Option<&'a IntermediateValue>)
    ensures
        match r {
            Option::Some(v) => lookup(entries@, name@) == Option::Some(*v),
            Option::None => lookup(entries@, name@) is None,
        },
{
    let n: usize = entries.len();
    let mut i: usize = 0;
    proof {
        assert(entries@.subrange(0, n as int) =~= entries@);
    }
    while i < n
        invariant
            n == entries@.len(),
            0 <= i <= n,
            lookup(entries@, name@) == lookup(entries@.subrange(i as int, n as int), name@),
        decreases n - i,
    {
        if entries[i].0 == *name {
            proof {
                assert(entries@.subrange(i as int, n as int)[0] == entries@[i as int]);
            }
            return Option::Some(&entries[i].1);
        }
        proof {
            assert(entries@.subrange(i as int, n as int).drop_first()
                =~= entries@.subrange(i as int + 1, n as int));
        }
        i += 1;
    }
    proof {
        assert(entries@.subrange(n as int, n as int).len() == 0);
    }
    Option::None
}

} // verus!
