//! Shape descriptors: the declarative schemas that the resolver binds
//! payloads against.

use vstd::prelude::*;
use crate::value::{IntermediateValue, ValueKind, kind_of};

verus! {

/// The type a descriptor expects of one field.
#[derive(Debug, Clone, Copy, PartialEq, Eq, Structural)]
pub enum FieldType {
    /// A number with no fractional component, within `i64` range. A number
    /// that carries a fractional component is rejected, even though the
    /// value tree files both under `Number`; this rule is fixed here once
    /// and applies identically to every descriptor.
    Integer,
    /// Any number, integral or fractional.
    Number,
    /// A string.
    Text,
    /// A boolean.
    Flag,
    /// A sequence of arbitrary values.
    Sequence,
    /// A string-keyed mapping of arbitrary values.
    Mapping,
}

/// One declared field of a shape: a name, an expected type, and whether the
/// field is required.
#[derive(Debug, Clone, PartialEq, Eq)]
pub struct FieldSpec {
    pub name: String,
    pub ty: FieldType,
    pub required: bool,
}

/// A named schema of required and optional typed fields: one member of the
/// closed set of acceptable record layouts.
#[derive(Debug, Clone, PartialEq, Eq)]
pub struct ShapeDescriptor {
    pub name: String,
    pub fields: Vec<FieldSpec>,
}

/// Whether a value of kind `k` is acceptable where `ft` is expected.
/// Compatibility depends on the value's kind alone.
pub open spec fn compatible_kind(ft: FieldType, k: ValueKind) -> bool {
    match ft {
        FieldType::Integer => k == ValueKind::IntegralNumber,
        FieldType::Number => k == ValueKind::IntegralNumber || k == ValueKind::FractionalNumber,
        FieldType::Text => k == ValueKind::Text,
        FieldType::Flag => k == ValueKind::Boolean,
        FieldType::Sequence => k == ValueKind::Sequence,
        FieldType::Mapping => k == ValueKind::Mapping,
    }
}

/// Whether value `v` is acceptable where `ft` is expected.
pub open spec fn compatible(ft: FieldType, v: IntermediateValue) -> bool {
    compatible_kind(ft, kind_of(v))
}

/// The first declared field named `name`, if any.
pub open spec fn field_of(fields: Seq<FieldSpec>, name: Seq<char>) -> Option<FieldSpec>
    decreases fields.len(),
{
    if fields.len() == 0 {
        Option::None
    } else if fields[0].name@ == name {
        Option::Some(fields[0])
    } else {
        field_of(fields.drop_first(), name)
    }
}

/// Whether the descriptor declares a field named `name`.
pub open spec fn declares(d: ShapeDescriptor, name: Seq<char>) -> bool {
    field_of(d.fields@, name) is Some
}

/// Whether an entry `name: v` belongs in the payload bound against `d`:
/// the name must be declared, and the value compatible with the declared
/// type.
pub open spec fn keeps(d: ShapeDescriptor, name: Seq<char>, v: IntermediateValue) -> bool {
    match field_of(d.fields@, name) {
        Option::Some(f) => compatible(f.ty, v),
        Option::None => false,
    }
}

/// No two declared fields share a name.
pub open spec fn wf_fields(fields: Seq<FieldSpec>) -> bool {
    forall|i: int, j: int|
        0 <= i < j < fields.len() ==> fields[i].name@ != fields[j].name@
}

/// A well-formed descriptor declares each field name at most once.
pub open spec fn wf_descriptor(d: ShapeDescriptor) -> bool {
    wf_fields(d.fields@)
}

/// Whether value `v` is acceptable where `ft` is expected.
pub fn compatible_with(ft: FieldType, v: &IntermediateValue) -> (r: bool)
    ensures
        r == compatible(ft, *v),
{
    match ft {
        FieldType::Integer => v.kind() == ValueKind::IntegralNumber,
        FieldType::Number => {
            let k = v.kind();
            k == ValueKind::IntegralNumber || k == ValueKind::FractionalNumber
        },
        FieldType::Text => v.kind() == ValueKind::Text,
        FieldType::Flag => v.kind() == ValueKind::Boolean,
        FieldType::Sequence => v.kind() == ValueKind::Sequence,
        FieldType::Mapping => v.kind() == ValueKind::Mapping,
    }
}

/// The first declared field of `d` named `name`, if any.
pub fn find_field<'a>(d: &'a ShapeDescriptor, name: &String) -> (r: Option<&'a FieldSpec>)
    ensures
        match r {
            Option::Some(f) => field_of(d.fields@, name@) == Option::Some(*f),
            Option::None => field_of(d.fields@, name@) is None,
        },
{
    let n: usize = d.fields.len();
    let mut i: usize = 0;
    proof {
        assert(d.fields@.subrange(0, n as int) =~= d.fields@);
    }
    while i < n
        invariant
            n == d.fields@.len(),
            0 <= i <= n,
            field_of(d.fields@, name@) == field_of(d.fields@.subrange(i as int, n as int), name@),
        decreases n - i,
    {
        if d.fields[i].name == *name {
            proof {
                assert(d.fields@.subrange(i as int, n as int)[0] == d.fields@[i as int]);
            }
            return Option::Some(&d.fields[i]);
        }
        proof {
            assert(d.fields@.subrange(i as int, n as int).drop_first()
                =~= d.fields@.subrange(i as int + 1, n as int));
        }
        i += 1;
    }
    proof {
        assert(d.fields@.subrange(n as int, n as int).len() == 0);
    }
    Option::None
}

impl FieldSpec {
    /// A field that every payload of the shape must carry.
    pub fn required(name: String, ty: FieldType) -> (f: FieldSpec)
        ensures
            f.name == name,
            f.ty == ty,
            f.required,
    {
        FieldSpec { name, ty, required: true }
    }

    /// A field a payload may carry; it binds only when present and
    /// compatible, and is otherwise omitted from the payload.
    pub fn optional(name: String, ty: FieldType) -> (f: FieldSpec)
        ensures
            f.name == name,
            f.ty == ty,
            !f.required,
    {
        FieldSpec { name, ty, required: false }
    }
}

impl ShapeDescriptor {
    /// A named shape over the given fields.
    pub fn new(name: String, fields: Vec<FieldSpec>) -> (d: ShapeDescriptor)
        ensures
            d.name == name,
            d.fields == fields,
    {
        ShapeDescriptor { name, fields }
    }
}

} // verus!
