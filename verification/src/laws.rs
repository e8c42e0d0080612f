//! The resolver's laws: what holds of every resolution, proved once over
//! the models that the entry points' contracts pin their results to.

use vstd::prelude::*;
use crate::value::{IntermediateValue, lookup, unique_keys};
use crate::shape::{FieldSpec, ShapeDescriptor, compatible, keeps, field_of, wf_fields,
    wf_descriptor};
use crate::resolve::{ResolvedValue, Resolution, binds, descriptor_errors, field_err,
    field_error_list, first_binding, failure_list, payload_model, retained, resolve_model,
    result_view, lemma_first_binding_is, lemma_first_binding_none, lemma_first_binding_char};
use crate::error::ResolveError;
use crate::codec::{same_shape, reparses_to, json_tree};

verus! {

/// One field's contribution to binding: a required field must be present
/// and compatible; an optional field never obstructs.
pub open spec fn required_field_ok(
    f: FieldSpec,
    entries: Seq<(String, IntermediateValue)>,
) -> bool {
    f.required ==> match lookup(entries, f.name@) {
        Option::Some(x) => compatible(f.ty, x),
        Option::None => false,
    }
}

/// A mapping satisfies a descriptor when every required field is present
/// and type-compatible.
pub open spec fn satisfies(d: ShapeDescriptor, entries: Seq<(String, IntermediateValue)>) -> bool {
    forall|i: int|
        0 <= i < d.fields@.len() ==> #[trigger] required_field_ok(d.fields@[i], entries)
}

proof fn lemma_field_errors_empty(fields: Seq<FieldSpec>, entries: Seq<(String, IntermediateValue)>)
    ensures
        field_error_list(fields, entries).len() == 0 <==> forall|i: int|
            0 <= i < fields.len() ==> #[trigger] required_field_ok(fields[i], entries),
    decreases fields.len(),
{
    if fields.len() == 0 {
    } else {
        let head = fields.drop_last();
        lemma_field_errors_empty(head, entries);
        assert(field_err(fields.last(), entries).len() == 0 <==> required_field_ok(
            fields.last(),
            entries,
        ));
        if field_error_list(fields, entries).len() == 0 {
            assert forall|i: int| 0 <= i < fields.len() implies #[trigger] required_field_ok(
                fields[i],
                entries,
            ) by {
                if i < fields.len() - 1 {
                    assert(head[i] == fields[i]);
                } else {
                    assert(fields[i] == fields.last());
                }
            }
        }
        if forall|i: int| 0 <= i < fields.len() ==> #[trigger] required_field_ok(
            fields[i],
            entries,
        ) {
            assert forall|i: int| 0 <= i < head.len() implies #[trigger] required_field_ok(
                head[i],
                entries,
            ) by {
                assert(head[i] == fields[i]);
            }
            assert(required_field_ok(fields.last(), entries));
        }
    }
}

/// Under the default policy a descriptor accepts a mapping exactly when
/// every one of its required fields is present and type-compatible.
pub proof fn lemma_binds_iff(d: ShapeDescriptor, m: Vec<(String, IntermediateValue)>)
    ensures
        binds(d, IntermediateValue::Mapping(m), false) <==> satisfies(d, m@),
{
    lemma_field_errors_empty(d.fields@, m@);
    assert(descriptor_errors(d, IntermediateValue::Mapping(m), false).len() == field_error_list(
        d.fields@,
        m@,
    ).len());
}

/// First match wins: on a value that satisfies descriptor `i` and no
/// earlier descriptor, resolution is bound to `i`, deterministically, with
/// that descriptor's name and payload.
pub proof fn lemma_first_match_wins(
    descs: Seq<ShapeDescriptor>,
    v: IntermediateValue,
    strict: bool,
    i: int,
)
    requires
        0 <= i < descs.len(),
        binds(descs[i], v, strict),
        forall|j: int| 0 <= j < i ==> !binds(#[trigger] descs[j], v, strict),
    ensures
        resolve_model(descs, v, strict) == Resolution::Bound(
            i,
            descs[i].name,
            payload_model(descs[i], v),
        ),
{
    lemma_first_binding_is(descs, v, strict, i);
}

/// First match wins, in field terms: a mapping that satisfies descriptor
/// `i`'s required fields and types, and no earlier descriptor's, resolves
/// under the default policy to descriptor `i`, with its name and payload.
pub proof fn lemma_satisfying_value_resolves_to_first(
    descs: Seq<ShapeDescriptor>,
    m: Vec<(String, IntermediateValue)>,
    i: int,
)
    requires
        0 <= i < descs.len(),
        satisfies(descs[i], m@),
        forall|j: int| 0 <= j < i ==> !satisfies(#[trigger] descs[j], m@),
    ensures
        resolve_model(descs, IntermediateValue::Mapping(m), false) == Resolution::Bound(
            i,
            descs[i].name,
            retained(m@, descs[i]),
        ),
{
    lemma_binds_iff(descs[i], m);
    assert forall|j: int| 0 <= j < i implies !binds(
        #[trigger] descs[j],
        IntermediateValue::Mapping(m),
        false,
    ) by {
        lemma_binds_iff(descs[j], m);
    }
    lemma_first_match_wins(descs, IntermediateValue::Mapping(m), false, i);
}

/// Determinism: two results of resolving the same value against the same
/// descriptors under the same policy report the same outcome.
pub proof fn lemma_deterministic(
    descs: Seq<ShapeDescriptor>,
    v: IntermediateValue,
    strict: bool,
    r1: Result<ResolvedValue, ResolveError>,
    r2: Result<ResolvedValue, ResolveError>,
)
    requires
        result_view(r1) == resolve_model(descs, v, strict),
        result_view(r2) == resolve_model(descs, v, strict),
    ensures
        result_view(r1) == result_view(r2),
{
}

/// Ordering sensitivity: on a value that two descriptors both accept, the
/// earlier descriptor wins, so swapping their positions changes which
/// shape is returned.
pub proof fn lemma_order_decides(
    a: ShapeDescriptor,
    b: ShapeDescriptor,
    v: IntermediateValue,
    strict: bool,
)
    requires
        binds(a, v, strict),
        binds(b, v, strict),
    ensures
        resolve_model(seq![a, b], v, strict) == Resolution::Bound(0, a.name, payload_model(a, v)),
        resolve_model(seq![b, a], v, strict) == Resolution::Bound(0, b.name, payload_model(b, v)),
{
    lemma_first_match_wins(seq![a, b], v, strict, 0);
    lemma_first_match_wins(seq![b, a], v, strict, 0);
}

proof fn lemma_failure_list_index(descs: Seq<ShapeDescriptor>, v: IntermediateValue, strict: bool)
    ensures
        failure_list(descs, v, strict).len() == descs.len(),
        forall|j: int|
            0 <= j < descs.len() ==> failure_list(descs, v, strict)[j] == (
                descs[j].name,
                descriptor_errors(descs[j], v, strict),
            ),
    decreases descs.len(),
{
    if descs.len() == 0 {
    } else {
        let head = descs.drop_last();
        lemma_failure_list_index(head, v, strict);
        assert forall|j: int| 0 <= j < descs.len() implies failure_list(descs, v, strict)[j] == (
            descs[j].name,
            descriptor_errors(descs[j], v, strict),
        ) by {
            if j < descs.len() - 1 {
                assert(head[j] == descs[j]);
                assert(failure_list(descs, v, strict)[j] == failure_list(head, v, strict)[j]);
            } else {
                assert(descs[j] == descs.last());
            }
        }
    }
}

/// Aggregate completeness: when no descriptor accepts the value, the
/// outcome carries exactly one failure entry per descriptor, in descriptor
/// order, each under its descriptor's name with that descriptor's full
/// error list.
pub proof fn lemma_failure_report_complete(
    descs: Seq<ShapeDescriptor>,
    v: IntermediateValue,
    strict: bool,
)
    requires
        descs.len() > 0,
        forall|j: int| 0 <= j < descs.len() ==> !binds(#[trigger] descs[j], v, strict),
    ensures
        resolve_model(descs, v, strict) == Resolution::Unbound(failure_list(descs, v, strict)),
        failure_list(descs, v, strict).len() == descs.len(),
        forall|j: int|
            0 <= j < descs.len() ==> failure_list(descs, v, strict)[j] == (
                descs[j].name,
                descriptor_errors(descs[j], v, strict),
            ),
{
    lemma_first_binding_none(descs, v, strict);
    lemma_failure_list_index(descs, v, strict);
}

proof fn lemma_lookup_absent(entries: Seq<(String, IntermediateValue)>, k: Seq<char>)
    requires
        forall|i: int| 0 <= i < entries.len() ==> (#[trigger] entries[i]).0@ != k,
    ensures
        lookup(entries, k) is None,
    decreases entries.len(),
{
    if entries.len() == 0 {
    } else {
        assert forall|i: int| 0 <= i < entries.drop_first().len() implies (#[trigger] entries.drop_first()[i]).0@
            != k by {
            assert(entries.drop_first()[i] == entries[i + 1]);
        }
        lemma_lookup_absent(entries.drop_first(), k);
    }
}

proof fn lemma_unique_drop_first(entries: Seq<(String, IntermediateValue)>)
    requires
        unique_keys(entries),
        entries.len() > 0,
    ensures
        unique_keys(entries.drop_first()),
{
    assert forall|i: int, j: int|
        0 <= i < j < entries.drop_first().len() implies entries.drop_first()[i].0@
        != entries.drop_first()[j].0@ by {
        assert(entries.drop_first()[i] == entries[i + 1]);
        assert(entries.drop_first()[j] == entries[j + 1]);
    }
}

/// What the payload holds under each key: the mapping's value when the
/// descriptor declares the key and the value is compatible, and nothing
/// otherwise.
pub proof fn lemma_lookup_retained(
    entries: Seq<(String, IntermediateValue)>,
    d: ShapeDescriptor,
    k: Seq<char>,
)
    requires
        unique_keys(entries),
    ensures
        lookup(retained(entries, d), k) == match lookup(entries, k) {
            Option::Some(x) => if keeps(d, k, x) {
                Option::Some(x)
            } else {
                Option::None::<IntermediateValue>
            },
            Option::None => Option::None::<IntermediateValue>,
        },
    decreases entries.len(),
{
    if entries.len() == 0 {
    } else {
        let e0 = entries[0];
        let rest = entries.drop_first();
        lemma_unique_drop_first(entries);
        lemma_lookup_retained(rest, d, k);
        if e0.0@ == k {
            assert forall|i: int| 0 <= i < rest.len() implies (#[trigger] rest[i]).0@ != k by {
                assert(rest[i] == entries[i + 1]);
            }
            lemma_lookup_absent(rest, k);
            if keeps(d, k, e0.1) {
                assert(retained(entries, d) == seq![e0] + retained(rest, d));
                assert((seq![e0] + retained(rest, d))[0] == e0);
            } else {
                assert(retained(entries, d) =~= retained(rest, d));
            }
        } else {
            if keeps(d, e0.0@, e0.1) {
                assert(retained(entries, d) == seq![e0] + retained(rest, d));
                assert((seq![e0] + retained(rest, d))[0] == e0);
                assert((seq![e0] + retained(rest, d)).drop_first() =~= retained(rest, d));
            } else {
                assert(retained(entries, d) =~= retained(rest, d));
            }
        }
    }
}

proof fn lemma_field_of_at(fields: Seq<FieldSpec>, idx: int)
    requires
        wf_fields(fields),
        0 <= idx < fields.len(),
    ensures
        field_of(fields, fields[idx].name@) == Option::Some(fields[idx]),
    decreases idx,
{
    if idx == 0 {
    } else {
        assert(fields[0].name@ != fields[idx].name@);
        assert forall|i: int, j: int|
            0 <= i < j < fields.drop_first().len() implies fields.drop_first()[i].name@
            != fields.drop_first()[j].name@ by {
            assert(fields.drop_first()[i] == fields[i + 1]);
            assert(fields.drop_first()[j] == fields[j + 1]);
        }
        lemma_field_of_at(fields.drop_first(), idx - 1);
        assert(fields.drop_first()[idx - 1] == fields[idx]);
    }
}

/// Round trip: when a mapping resolves to descriptor `i`, any bytes that
/// the encoded payload reparses to resolve to the same descriptor `i`
/// again, under the default policy.
pub proof fn lemma_round_trip(
    descs: Seq<ShapeDescriptor>,
    m: Vec<(String, IntermediateValue)>,
    i: int,
    bytes: Seq<u8>,
    m2: Vec<(String, IntermediateValue)>,
)
    requires
        unique_keys(m@),
        0 <= i < descs.len(),
        wf_descriptor(descs[i]),
        first_binding(descs, IntermediateValue::Mapping(m), false) == Option::Some(i),
        reparses_to(bytes, retained(m@, descs[i])),
        json_tree(bytes) == Option::Some(IntermediateValue::Mapping(m2)),
    ensures
        first_binding(descs, IntermediateValue::Mapping(m2), false) == Option::Some(i),
        resolve_model(descs, IntermediateValue::Mapping(m2), false) == Resolution::Bound(
            i,
            descs[i].name,
            payload_model(descs[i], IntermediateValue::Mapping(m2)),
        ),
{
    let di = descs[i];
    let payload = retained(m@, di);
    lemma_first_binding_char(descs, IntermediateValue::Mapping(m), false);
    lemma_binds_iff(di, m);

    // Each required field of the winner is present and compatible in the
    // reparsed mapping: it was kept in the payload, and the reparse keeps
    // its key and its kind.
    assert forall|idx: int| 0 <= idx < di.fields@.len() implies #[trigger] required_field_ok(
        di.fields@[idx],
        m2@,
    ) by {
        let f = di.fields@[idx];
        if f.required {
            assert(required_field_ok(f, m@));
            let x = lookup(m@, f.name@)->Some_0;
            lemma_field_of_at(di.fields@, idx);
            assert(keeps(di, f.name@, x));
            lemma_lookup_retained(m@, di, f.name@);
            assert(lookup(payload, f.name@) == Option::Some(x));
            assert(same_shape(lookup(m2@, f.name@), lookup(payload, f.name@)));
        }
    }
    lemma_binds_iff(di, m2);
    assert(binds(di, IntermediateValue::Mapping(m2), false));

    // Each earlier descriptor still fails: the field that failed it is
    // either absent from the payload, or present with its old kind.
    assert forall|j: int| 0 <= j < i implies !binds(
        #[trigger] descs[j],
        IntermediateValue::Mapping(m2),
        false,
    ) by {
        lemma_binds_iff(descs[j], m);
        lemma_binds_iff(descs[j], m2);
        assert(!satisfies(descs[j], m@));
        let idx = choose|idx: int|
            0 <= idx < descs[j].fields@.len() && !required_field_ok(
                #[trigger] descs[j].fields@[idx],
                m@,
            );
        let f = descs[j].fields@[idx];
        lemma_lookup_retained(m@, di, f.name@);
        assert(same_shape(lookup(m2@, f.name@), lookup(payload, f.name@)));
        assert(!required_field_ok(f, m2@));
    }
    lemma_first_binding_is(descs, IntermediateValue::Mapping(m2), false, i);
}

} // verus!
