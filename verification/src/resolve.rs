//! The shape resolver: tries each descriptor in the caller-supplied order
//! against one value and returns the first successful binding, or the
//! aggregated failure of every attempt.
//!
//! Binding policy, fixed here once for every descriptor:
//! - every required field must be present and type-compatible;
//! - an optional field binds only when present and compatible, and is
//!   otherwise omitted from the payload;
//! - fields present on the value but not declared on the descriptor are
//!   ignored by [`resolve`] and rejected by [`resolve_strict`].

use vstd::prelude::*;
use vstd::pervasive::unreached;
use crate::value::{IntermediateValue, kind_of, lookup, lookup_field};
use crate::shape::{ShapeDescriptor, compatible, compatible_with, declares, keeps, find_field};
use crate::shape::FieldSpec;
use crate::error::{BindingError, DescriptorFailure, AggregateBindingError, ResolveError};

verus! {

/// A successful resolution: the index of the descriptor that bound (the
/// discriminator the caller branches on), that descriptor's name, and the
/// bound payload: the declared fields that were present and compatible, in
/// the order the value carried them.
#[derive(Debug, PartialEq, Eq)]
pub struct ResolvedValue {
    pub index: usize,
    pub shape: String,
    pub fields: Vec<(String, IntermediateValue)>,
}

impl ResolvedValue {
    /// The bound value of the field named `name`, if the payload carries it.
    pub fn field<'a>(&'a self, name: &String) -> (r: Option<&'a IntermediateValue>)
        ensures
            match r {
                Option::Some(v) => lookup(self.fields@, name@) == Option::Some(*v),
                Option::None => lookup(self.fields@, name@) is None,
            },
    {
        lookup_field(&self.fields, name)
    }
}

/// The errors one field contributes against `entries`: nothing when the
/// field binds or is an absent or incompatible optional, one error when a
/// required field is absent or carries the wrong kind of value.
pub open spec fn field_err(
    f: FieldSpec,
    entries: Seq<(String, IntermediateValue)>,
) -> Seq<BindingError> {
    match lookup(entries, f.name@) {
        Option::Some(v) => if f.required && !compatible(f.ty, v) {
            seq![BindingError::TypeMismatch { field: f.name, expected: f.ty, actual: kind_of(v) }]
        } else {
            seq![]
        },
        Option::None => if f.required {
            seq![BindingError::MissingField(f.name)]
        } else {
            seq![]
        },
    }
}

/// All field errors of a descriptor's field list, in declaration order.
pub open spec fn field_error_list(
    fields: Seq<FieldSpec>,
    entries: Seq<(String, IntermediateValue)>,
) -> Seq<BindingError>
    decreases fields.len(),
{
    if fields.len() == 0 {
        seq![]
    } else {
        field_error_list(fields.drop_last(), entries) + field_err(fields.last(), entries)
    }
}

/// The unknown-field errors of the strict policy: one per entry whose key
/// the descriptor does not declare, in entry order.
pub open spec fn unknown_error_list(
    entries: Seq<(String, IntermediateValue)>,
    d: ShapeDescriptor,
) -> Seq<BindingError>
    decreases entries.len(),
{
    if entries.len() == 0 {
        seq![]
    } else {
        unknown_error_list(entries.drop_last(), d) + (if declares(d, entries.last().0@) {
            seq![]
        } else {
            seq![BindingError::UnknownField(entries.last().0)]
        })
    }
}

/// Every reason descriptor `d` rejects value `v`: field errors in field
/// order, then (under the strict policy) unknown-field errors in entry
/// order. A value that is not a mapping at all is rejected with the single
/// uniform `NotARecord` error, whatever the descriptor declares.
pub open spec fn descriptor_errors(
    d: ShapeDescriptor,
    v: IntermediateValue,
    strict: bool,
) -> Seq<BindingError> {
    match v {
        IntermediateValue::Mapping(entries) => field_error_list(d.fields@, entries@) + (
        if strict {
            unknown_error_list(entries@, d)
        } else {
            seq![]
        }),
        _ => seq![BindingError::NotARecord],
    }
}

/// Whether descriptor `d` accepts value `v`: binding produces no error.
pub open spec fn binds(d: ShapeDescriptor, v: IntermediateValue, strict: bool) -> bool {
    descriptor_errors(d, v, strict).len() == 0
}

/// The payload bound against `d`: the entries whose key `d` declares and
/// whose value is compatible with the declared type, in entry order.
pub open spec fn retained(
    entries: Seq<(String, IntermediateValue)>,
    d: ShapeDescriptor,
) -> Seq<(String, IntermediateValue)>
    decreases entries.len(),
{
    if entries.len() == 0 {
        seq![]
    } else {
        (if keeps(d, entries[0].0@, entries[0].1) {
            seq![entries[0]]
        } else {
            seq![]
        }) + retained(entries.drop_first(), d)
    }
}

/// The payload that binding `v` against `d` produces.
pub open spec fn payload_model(d: ShapeDescriptor, v: IntermediateValue) -> Seq<
    (String, IntermediateValue),
> {
    match v {
        IntermediateValue::Mapping(entries) => retained(entries@, d),
        _ => seq![],
    }
}

/// The index of the first descriptor that accepts `v`, if any.
pub open spec fn first_binding(
    descs: Seq<ShapeDescriptor>,
    v: IntermediateValue,
    strict: bool,
) -> Option<int>
    decreases descs.len(),
{
    if descs.len() == 0 {
        Option::None
    } else if binds(descs[0], v, strict) {
        Option::Some(0int)
    } else {
        match first_binding(descs.drop_first(), v, strict) {
            Option::Some(i) => Option::Some(i + 1),
            Option::None => Option::None,
        }
    }
}

/// The full failure report: per descriptor, in order, its name and every
/// reason it rejected `v`.
pub open spec fn failure_list(
    descs: Seq<ShapeDescriptor>,
    v: IntermediateValue,
    strict: bool,
) -> Seq<(String, Seq<BindingError>)>
    decreases descs.len(),
{
    if descs.len() == 0 {
        seq![]
    } else {
        failure_list(descs.drop_last(), v, strict) + seq![
            (descs.last().name, descriptor_errors(descs.last(), v, strict)),
        ]
    }
}

/// The abstract outcome of one resolution: the model every entry point's
/// result is proved equal to.
pub enum Resolution {
    /// The bytes were not well-formed serialized data (decoding only).
    Malformed,
    /// The descriptor sequence was empty.
    NoDescriptors,
    /// Descriptor `index` bound, under its name, with the given payload.
    Bound(int, String, Seq<(String, IntermediateValue)>),
    /// Every descriptor rejected the value, for the listed reasons.
    Unbound(Seq<(String, Seq<BindingError>)>),
}

/// What resolution of `v` against `descs` yields: a function of the two
/// inputs alone.
pub open spec fn resolve_model(
    descs: Seq<ShapeDescriptor>,
    v: IntermediateValue,
    strict: bool,
) -> Resolution {
    if descs.len() == 0 {
        Resolution::NoDescriptors
    } else {
        match first_binding(descs, v, strict) {
            Option::Some(i) => Resolution::Bound(i, descs[i].name, payload_model(descs[i], v)),
            Option::None => Resolution::Unbound(failure_list(descs, v, strict)),
        }
    }
}

/// The failure report a returned aggregate carries.
pub open spec fn failures_view(fs: Seq<DescriptorFailure>) -> Seq<(String, Seq<BindingError>)> {
    fs.map_values(|df: DescriptorFailure| (df.shape, df.errors@))
}

/// A returned result, abstracted to the outcome it reports.
pub open spec fn result_view(r: Result<ResolvedValue, ResolveError>) -> Resolution {
    match r {
        Result::Ok(rv) => Resolution::Bound(rv.index as int, rv.shape, rv.fields@),
        Result::Err(ResolveError::Configuration) => Resolution::NoDescriptors,
        Result::Err(ResolveError::NoMatch(agg)) => Resolution::Unbound(
            failures_view(agg.failures@),
        ),
    }
}

/// A first match at `i` is a binding at `i` with none earlier.
pub proof fn lemma_first_binding_is(
    descs: Seq<ShapeDescriptor>,
    v: IntermediateValue,
    strict: bool,
    i: int,
)
    requires
        0 <= i < descs.len(),
        binds(descs[i], v, strict),
        forall|j: int| 0 <= j < i ==> !binds(#[trigger] descs[j], v, strict),
    ensures
        first_binding(descs, v, strict) == Option::Some(i),
    decreases i,
{
    if i == 0 {
    } else {
        assert(!binds(descs[0], v, strict));
        lemma_first_binding_is(descs.drop_first(), v, strict, i - 1);
    }
}

/// When no descriptor binds, there is no first match.
pub proof fn lemma_first_binding_none(descs: Seq<ShapeDescriptor>, v: IntermediateValue, strict: bool)
    requires
        forall|j: int| 0 <= j < descs.len() ==> !binds(#[trigger] descs[j], v, strict),
    ensures
        first_binding(descs, v, strict) is None,
    decreases descs.len(),
{
    if descs.len() == 0 {
    } else {
        lemma_first_binding_none(descs.drop_first(), v, strict);
    }
}

/// A first match, when there is one, is a binding with none earlier; when
/// there is none, no descriptor binds.
pub proof fn lemma_first_binding_char(descs: Seq<ShapeDescriptor>, v: IntermediateValue, strict: bool)
    ensures
        match first_binding(descs, v, strict) {
            Option::Some(i) => 0 <= i < descs.len() && binds(descs[i], v, strict) && forall|
                j: int,
            | 0 <= j < i ==> !binds(#[trigger] descs[j], v, strict),
            Option::None => forall|j: int|
                0 <= j < descs.len() ==> !binds(#[trigger] descs[j], v, strict),
        },
    decreases descs.len(),
{
    if descs.len() == 0 {
    } else if binds(descs[0], v, strict) {
    } else {
        lemma_first_binding_char(descs.drop_first(), v, strict);
        let rest = descs.drop_first();
        match first_binding(rest, v, strict) {
            Option::Some(i) => {
                assert(descs[i + 1] == rest[i]);
                assert forall|j: int| 0 <= j < i + 1 implies !binds(
                    #[trigger] descs[j],
                    v,
                    strict,
                ) by {
                    if j > 0 {
                        assert(descs[j] == rest[j - 1]);
                    }
                }
            },
            Option::None => {
                assert forall|j: int| 0 <= j < descs.len() implies !binds(
                    #[trigger] descs[j],
                    v,
                    strict,
                ) by {
                    if j > 0 {
                        assert(descs[j] == rest[j - 1]);
                    }
                }
            },
        }
    }
}

/// Every reason `d` rejects `v`, or nothing if `d` accepts it.
pub fn check_descriptor(d: &ShapeDescriptor, v: &IntermediateValue, strict: bool) -> (errs: Vec<
    BindingError,
>)
    ensures
        errs@ == descriptor_errors(*d, *v, strict),
{
    match v {
        IntermediateValue::Mapping(entries) => {
            let mut errs: Vec<BindingError> = Vec::new();
            let nf: usize = d.fields.len();
            let mut i: usize = 0;
            proof {
                assert(d.fields@.subrange(0, 0) =~= Seq::<FieldSpec>::empty());
            }
            while i < nf
                invariant
                    nf == d.fields@.len(),
                    0 <= i <= nf,
                    errs@ == field_error_list(d.fields@.subrange(0, i as int), entries@),
                decreases nf - i,
            {
                let f = &d.fields[i];
                let ghost prior = errs@;
                match lookup_field(entries, &f.name) {
                    Option::Some(x) => {
                        if f.required && !compatible_with(f.ty, x) {
                            errs.push(
                                BindingError::TypeMismatch {
                                    field: f.name.clone(),
                                    expected: f.ty,
                                    actual: x.kind(),
                                },
                            );
                        }
                    },
                    Option::None => {
                        if f.required {
                            errs.push(BindingError::MissingField(f.name.clone()));
                        }
                    },
                }
                proof {
                    let pre = d.fields@.subrange(0, i as int + 1);
                    assert(pre.drop_last() =~= d.fields@.subrange(0, i as int));
                    assert(pre.last() == d.fields@[i as int]);
                    assert(errs@ =~= prior + field_err(d.fields@[i as int], entries@));
                }
                i += 1;
            }
            proof {
                assert(d.fields@.subrange(0, nf as int) =~= d.fields@);
            }
            if strict {
                let ne: usize = entries.len();
                let mut j: usize = 0;
                proof {
                    assert(entries@.subrange(0, 0) =~= Seq::<(String, IntermediateValue)>::empty());
                }
                while j < ne
                    invariant
                        ne == entries@.len(),
                        0 <= j <= ne,
                        errs@ == field_error_list(d.fields@, entries@) + unknown_error_list(
                            entries@.subrange(0, j as int),
                            *d,
                        ),
                    decreases ne - j,
                {
                    let key = &entries[j].0;
                    let ghost prior = errs@;
                    if find_field(d, key).is_none() {
                        errs.push(BindingError::UnknownField(key.clone()));
                    }
                    proof {
                        let pre = entries@.subrange(0, j as int + 1);
                        assert(pre.drop_last() =~= entries@.subrange(0, j as int));
                        assert(pre.last() == entries@[j as int]);
                        assert(errs@ =~= field_error_list(d.fields@, entries@)
                            + unknown_error_list(pre, *d));
                    }
                    j += 1;
                }
                proof {
                    assert(entries@.subrange(0, ne as int) =~= entries@);
                }
            } else {
                proof {
                    assert(errs@ =~= field_error_list(d.fields@, entries@) + Seq::<
                        BindingError,
                    >::empty());
                }
            }
            errs
        },
        _ => {
            let mut errs: Vec<BindingError> = Vec::new();
            errs.push(BindingError::NotARecord);
            proof {
                assert(errs@ =~= seq![BindingError::NotARecord]);
            }
            errs
        },
    }
}

/// The payload of a successful binding: the entries of the mapping that the
/// descriptor declares and whose value is compatible, in entry order.
fn build_payload(entries: Vec<(String, IntermediateValue)>, d: &ShapeDescriptor) -> (p: Vec<
    (String, IntermediateValue),
>)
    ensures
        p@ == retained(entries@, *d),
{
    let mut rest = entries;
    let mut p: Vec<(String, IntermediateValue)> = Vec::new();
    let ghost orig = rest@;
    while rest.len() > 0
        invariant
            p@ + retained(rest@, *d) == retained(orig, *d),
        decreases rest@.len(),
    {
        let ghost before = rest@;
        let ghost acc = p@;
        let (k, x) = rest.remove(0);
        proof {
            assert(rest@ =~= before.drop_first());
            assert(before[0] == (k, x));
        }
        let kept = match find_field(d, &k) {
            Option::Some(f) => compatible_with(f.ty, &x),
            Option::None => false,
        };
        if kept {
            p.push((k, x));
            proof {
                assert(keeps(*d, before[0].0@, before[0].1));
                assert(p@ =~= acc + seq![before[0]]);
                assert((acc + seq![before[0]]) + retained(before.drop_first(), *d) =~= acc
                    + retained(before, *d));
            }
        } else {
            proof {
                assert(!keeps(*d, before[0].0@, before[0].1));
                assert(retained(before, *d) =~= retained(before.drop_first(), *d));
            }
        }
    }
    proof {
        assert(retained(rest@, *d) =~= Seq::<(String, IntermediateValue)>::empty());
        assert(p@ + retained(rest@, *d) =~= p@);
    }
    p
}

/// Resolve `value` against the descriptors in order, under the chosen
/// extra-field policy: the first descriptor that accepts the value wins;
/// if none does, the full per-descriptor failure report is returned; an
/// empty descriptor sequence is a configuration error, reported before any
/// binding attempt.
pub fn resolve_with(
    value: IntermediateValue,
    descriptors: &Vec<ShapeDescriptor>,
    strict: bool,
) -> (r: Result<ResolvedValue, ResolveError>)
    ensures
        result_view(r) == resolve_model(descriptors@, value, strict),
{
    let nd: usize = descriptors.len();
    if nd == 0 {
        return Result::Err(ResolveError::Configuration);
    }
    let mut failures: Vec<DescriptorFailure> = Vec::new();
    let mut i: usize = 0;
    proof {
        assert(failures_view(failures@) =~= failure_list(
            descriptors@.subrange(0, 0),
            value,
            strict,
        ));
    }
    while i < nd
        invariant
            nd == descriptors@.len(),
            0 <= i <= nd,
            forall|j: int| 0 <= j < i ==> !binds(#[trigger] descriptors@[j], value, strict),
            failures_view(failures@) == failure_list(
                descriptors@.subrange(0, i as int),
                value,
                strict,
            ),
        decreases nd - i,
    {
        let d = &descriptors[i];
        let errs = check_descriptor(d, &value, strict);
        if errs.len() == 0 {
            proof {
                lemma_first_binding_is(descriptors@, value, strict, i as int);
            }
            let index = i;
            let shape = d.name.clone();
            match value {
                IntermediateValue::Mapping(entries) => {
                    let payload = build_payload(entries, d);
                    return Result::Ok(ResolvedValue { index, shape, fields: payload });
                },
                _ => {
                    proof {
                        assert(false);
                    }
                    unreached()
                },
            }
        }
        let ghost prior = failures@;
        failures.push(DescriptorFailure { shape: d.name.clone(), errors: errs });
        proof {
            let pre = descriptors@.subrange(0, i as int + 1);
            assert(pre.drop_last() =~= descriptors@.subrange(0, i as int));
            assert(pre.last() == descriptors@[i as int]);
            assert(failures_view(failures@) =~= failures_view(prior) + seq![
                (descriptors@[i as int].name, descriptor_errors(
                    descriptors@[i as int],
                    value,
                    strict,
                )),
            ]);
        }
        i += 1;
    }
    proof {
        assert(descriptors@.subrange(0, nd as int) =~= descriptors@);
        lemma_first_binding_none(descriptors@, value, strict);
    }
    Result::Err(ResolveError::NoMatch(AggregateBindingError { failures }))
}

/// Resolve under the fixed default policy: fields present on the value but
/// not declared on the descriptor are ignored.
pub fn resolve(value: IntermediateValue, descriptors: &Vec<ShapeDescriptor>) -> (r: Result<
    ResolvedValue,
    ResolveError,
>)
    ensures
        result_view(r) == resolve_model(descriptors@, value, false),
{
    resolve_with(value, descriptors, false)
}

/// Resolve under the strict policy: a field the descriptor does not declare
/// rejects the descriptor with `UnknownField`.
pub fn resolve_strict(value: IntermediateValue, descriptors: &Vec<ShapeDescriptor>) -> (r: Result<
    ResolvedValue,
    ResolveError,
>)
    ensures
        result_view(r) == resolve_model(descriptors@, value, true),
{
    resolve_with(value, descriptors, true)
}

} // verus!
