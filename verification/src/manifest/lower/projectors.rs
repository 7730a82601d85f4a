//! Lowering of the `presentation_projectors` section.
use vstd::prelude::*;
use crate::collections::{StrMap, StrSet};
use crate::diagnostics::{
    lemma_reported_none, lemma_reported_push, lemma_reported_trans, problem_of, reported, Diagnostic,
    Problem,
};
use crate::manifest::lower::definitions::{
    entry_names, is_first_named, lemma_push_contains_seq_pub, name_problems,
};
use crate::manifest::lower::parameters::{lowered_type, pending_added, pending_views};
use crate::manifest::lower::projector_inputs::{
    input_lowered, inputs_pending, inputs_problems, lower_inputs, lower_selector, selector_outcome,
    selector_view,
};
use crate::manifest::lower::projector_outputs::{
    label_ids_after, lower_outputs, outputs_lowered, outputs_pending, outputs_problems,
};
use crate::manifest::lower::projector_queries::{
    input_type_views, lower_projector_queries, queries_lowered, queries_of_problems,
    query_types_upto,
};
use crate::manifest::raw::{Named, RawPresentationProjectorDefinition, RawProjectionInput};
use crate::manifest::spans::ManifestSpans;
use crate::manifest::validate::{
    duplicate_definition, duplicate_view, invalid_name_view, spec_is_manifest_name,
    validate_manifest_name, PendingTypeReference,
};
use crate::model::{ProjectSchema, SchemaPresentationProjectorDefinition, TypeRefView};

verus! {

/// Views of raw inputs: name and the type they lower to.
pub open spec fn raw_input_views(rs: Seq<RawProjectionInput>) -> Seq<(Seq<char>, TypeRefView)> {
    rs.map_values(|r: RawProjectionInput| (r.name@, lowered_type(r.type_ref@)))
}

/// The problems of a projector whose name is new, given the label ids seen before it.
pub open spec fn projector_problems(schema: ProjectSchema, name: Seq<char>, ids: Set<Seq<char>>, r: RawPresentationProjectorDefinition) -> Seq<Problem> {
    let sel = selector_outcome(schema, name, r.candidates);
    match sel.1 {
        None => sel.0,
        Some(sv) => {
            let ins = raw_input_views(r.inputs@);
            sel.0 + inputs_problems(schema, name, sv, r.inputs@, r.inputs@.len() as int)
                + queries_of_problems(schema, name, ins, r.queries@, r.queries@.len() as int)
                + outputs_problems(schema, name, ins, query_types_upto(schema, r.queries@, r.queries@.len() as int), ids, r.outputs@,
                    r.outputs@.len() as int)
        },
    }
}

/// A projector entry with a new name becomes a projector: its selector lowers.
pub open spec fn projector_kept(schema: ProjectSchema, es: Seq<Named<RawPresentationProjectorDefinition>>, i: int) -> bool {
    is_first_named(entry_names(es), i) && selector_outcome(schema, es[i].name@, es[i].value.candidates).1 is Some
}

/// The label template ids seen after the first `n` projector entries.
pub open spec fn projector_label_ids(schema: ProjectSchema, ids: Set<Seq<char>>, es: Seq<Named<RawPresentationProjectorDefinition>>, n: int) -> Set<Seq<char>>
    decreases n,
{
    if n <= 0 {
        ids
    } else {
        let s = projector_label_ids(schema, ids, es, n - 1);
        if projector_kept(schema, es, n - 1) {
            label_ids_after(s, es[n - 1].value.outputs@, es[n - 1].value.outputs@.len() as int)
        } else {
            s
        }
    }
}

/// The problems reported for projector entry `i`.
pub open spec fn projector_entry_problems(schema: ProjectSchema, ids: Set<Seq<char>>, es: Seq<Named<RawPresentationProjectorDefinition>>, i: int) -> Seq<Problem> {
    let names = entry_names(es);
    if !is_first_named(names, i) {
        name_problems(names, i, "projector id"@, "presentation projector"@)
    } else {
        projector_problems(schema, es[i].name@, projector_label_ids(schema, ids, es, i), es[i].value)
    }
}

/// The problems reported for the first `n` projector entries, in order.
pub open spec fn projectors_problems(schema: ProjectSchema, ids: Set<Seq<char>>, es: Seq<Named<RawPresentationProjectorDefinition>>, n: int) -> Seq<Problem>
    decreases n,
{
    if n <= 0 {
        Seq::empty()
    } else {
        projectors_problems(schema, ids, es, n - 1) + projector_entry_problems(schema, ids, es, n - 1)
    }
}

/// The pending type references of the first `n` projector entries.
pub open spec fn projectors_pending(schema: ProjectSchema, es: Seq<Named<RawPresentationProjectorDefinition>>, n: int) -> Seq<(Seq<char>, TypeRefView)>
    decreases n,
{
    if n <= 0 {
        Seq::empty()
    } else {
        projectors_pending(schema, es, n - 1) + if projector_kept(schema, es, n - 1) {
            let r = es[n - 1].value;
            let name = es[n - 1].name@;
            inputs_pending(name, r.inputs@, r.inputs@.len() as int) + outputs_pending(name, r.outputs@, r.outputs@.len() as int)
        } else {
            Seq::empty()
        }
    }
}

/// The projector a kept entry lowers to.
pub open spec fn projector_lowered(d: SchemaPresentationProjectorDefinition, schema: ProjectSchema, e: Named<RawPresentationProjectorDefinition>) -> bool {
    let name = e.name@;
    let r = e.value;
    let sv = selector_outcome(schema, name, r.candidates).1->0;
    &&& selector_view(d.candidates) == sv
    &&& d.inputs@.len() == r.inputs@.len()
    &&& forall|k: int| 0 <= k < r.inputs@.len() ==> #[trigger] input_lowered(d.inputs@[k], schema, name, sv, r.inputs@[k])
    &&& queries_lowered(d.queries, r.queries@, r.queries@.len() as int)
    &&& outputs_lowered(d.outputs, schema, name, raw_input_views(r.inputs@), query_types_upto(schema, r.queries@, r.queries@.len() as int),
        r.outputs@, r.outputs@.len() as int)
}

/// All fields of two schemas but the presentation projectors agree.
pub open spec fn same_but_projectors(a: ProjectSchema, b: ProjectSchema) -> bool {
    &&& a.schema_version == b.schema_version
    &&& a.types == b.types
    &&& a.registries == b.registries
    &&& a.speakers == b.speakers
    &&& a.conditions == b.conditions
    &&& a.availability_reasons == b.availability_reasons
    &&& a.effects == b.effects
    &&& a.metadata_domains == b.metadata_domains
    &&& a.metadata == b.metadata
    &&& a.projection_queries == b.projection_queries
    &&& a.markup == b.markup
    &&& a.producer_metadata == b.producer_metadata
}

/// Entry `k` of the collected projectors is the lowering of kept entry `idx[k]`.
pub open spec fn collected_at(schema: ProjectSchema, es: Seq<Named<RawPresentationProjectorDefinition>>, out: Seq<(String, SchemaPresentationProjectorDefinition)>, idx: Seq<int>, k: int) -> bool {
    &&& 0 <= idx[k] < es.len()
    &&& projector_kept(schema, es, idx[k])
    &&& es[idx[k]].name@ == out[k].0@
    &&& projector_lowered(out[k].1, schema, es[idx[k]])
}

/// The collected projectors are the lowerings of the kept entries among the first `n`, in order.
pub open spec fn collected(schema: ProjectSchema, es: Seq<Named<RawPresentationProjectorDefinition>>, out: Seq<(String, SchemaPresentationProjectorDefinition)>, idx: Seq<int>, n: int) -> bool {
    &&& idx.len() == out.len()
    &&& forall|k: int| 0 <= k < out.len() ==> #[trigger] collected_at(schema, es, out, idx, k)
    &&& forall|k: int| 0 <= k < idx.len() ==> idx[k] < n
    &&& forall|a: int, b: int| 0 <= a < b < idx.len() ==> idx[a] < idx[b]
    &&& forall|j: int| 0 <= j < n && #[trigger] projector_kept(schema, es, j) ==> idx.contains(j)
}

fn lower_projector_entries(
    file: &str,
    source: &[char],
    spans: &mut ManifestSpans,
    entries: Vec<Named<RawPresentationProjectorDefinition>>,
    schema: &ProjectSchema,
    diagnostics: &mut Vec<Diagnostic>,
    pending_type_refs: &mut Vec<PendingTypeReference>,
) -> (r: (Vec<(String, SchemaPresentationProjectorDefinition)>, Ghost<Seq<int>>))
    ensures
        reported(old(diagnostics)@, final(diagnostics)@, projectors_problems(*schema, Set::empty(), entries@, entries@.len() as int)),
        pending_added(old(pending_type_refs)@, final(pending_type_refs)@, projectors_pending(*schema, entries@, entries@.len() as int)),
        collected(*schema, entries@, r.0@, r.1@, entries@.len() as int),
{
    let ghost es = entries@;
    let ghost names = entry_names(es);
    let ghost start = diagnostics@;
    let ghost pstart = pending_type_refs@;
    let mut entries = entries;
    let mut seen = StrSet::new();
    let mut seen_label_ids = StrSet::new();
    let mut out: Vec<(String, SchemaPresentationProjectorDefinition)> = Vec::new();
    let ghost mut idx: Seq<int> = Seq::empty();
    let mut i: usize = 0;
    let total = entries.len();
    proof {
        lemma_reported_none(start);
        assert(pending_type_refs@.subrange(0, pstart.len() as int) =~= pstart);
        assert(pending_views(pending_type_refs@.subrange(pstart.len() as int, pstart.len() as int)) =~= Seq::<(Seq<char>, TypeRefView)>::empty());
        assert(es.subrange(0, es.len() as int) =~= es);
        assert(seen_label_ids.elem_set() =~= Set::<Seq<char>>::empty());
    }
    while entries.len() > 0
        invariant
            total == es.len(),
            names == entry_names(es),
            i <= es.len(),
            entries@ == es.subrange(i as int, es.len() as int),
            forall|n: Seq<char>| #[trigger] seen.elem_set().contains(n) <==> (spec_is_manifest_name(n) && names.take(i as int).contains(n)),
            seen_label_ids.elem_set() == projector_label_ids(*schema, Set::empty(), es, i as int),
            reported(start, diagnostics@, projectors_problems(*schema, Set::empty(), es, i as int)),
            pending_added(pstart, pending_type_refs@, projectors_pending(*schema, es, i as int)),
            collected(*schema, es, out@, idx, i as int),
        decreases entries@.len(),
    {
        let entry = entries.remove(0);
        let ghost mid = diagnostics@;
        let ghost pmid = pending_type_refs@;
        let ghost out_before = out@;
        proof {
            assert(entry == es[i as int]);
            assert(entries@ =~= es.subrange(i + 1, es.len() as int));
            assert(names[i as int] == entry.name@);
            assert(names.take(i + 1) =~= names.take(i as int).push(entry.name@));
        }
        let name_span = spans.next_string_span(file, source, entry.name.as_str());
        let dup_span = name_span.copy();
        if !validate_manifest_name(diagnostics, "projector id", entry.name.as_str(), name_span) {
            proof {
                lemma_reported_push(start, mid, projectors_problems(*schema, Set::empty(), es, i as int), diagnostics@.last(),
                    problem_of(invalid_name_view("projector id"@, arbitrary())));
                assert(diagnostics@ =~= mid.push(diagnostics@.last()));
                assert forall|n: Seq<char>| #[trigger] seen.elem_set().contains(n) <==> (spec_is_manifest_name(n) && names.take(i + 1).contains(n)) by {
                    lemma_push_contains_seq_pub(names.take(i as int), entry.name@, n);
                }
                assert(projectors_pending(*schema, es, i + 1) =~= projectors_pending(*schema, es, i as int));
            }
            i = i + 1;
            continue;
        }
        let ghost seen_before = seen;
        proof {
            assert(seen_before.elem_set().contains(entry.name@) == seen_before.elems().contains(entry.name@));
        }
        let fresh = seen.insert(crate::text::copy_string(&entry.name));
        proof {
            assert forall|n: Seq<char>| #[trigger] seen.elem_set().contains(n) <==> (spec_is_manifest_name(n) && names.take(i + 1).contains(n)) by {
                lemma_push_contains_seq_pub(names.take(i as int), entry.name@, n);
            }
        }
        if !fresh {
            duplicate_definition(diagnostics, "presentation projector", entry.name.as_str(), dup_span);
            proof {
                lemma_reported_push(start, mid, projectors_problems(*schema, Set::empty(), es, i as int), diagnostics@.last(),
                    problem_of(duplicate_view("presentation projector"@, entry.name@, arbitrary())));
                assert(diagnostics@ =~= mid.push(diagnostics@.last()));
                assert(projectors_pending(*schema, es, i + 1) =~= projectors_pending(*schema, es, i as int));
            }
            i = i + 1;
            continue;
        }
        proof {
            assert(is_first_named(names, i as int));
        }
        let Named { name, value } = entry;
        let RawPresentationProjectorDefinition { candidates, inputs, queries, outputs } = value;
        let ghost r = es[i as int].value;
        let ghost ids = seen_label_ids.elem_set();
        let selector = match lower_selector(file, source, spans, diagnostics, schema, name.as_str(), candidates) {
            Some(s) => s,
            None => {
                proof {
                    lemma_reported_trans(start, mid, diagnostics@, projectors_problems(*schema, Set::empty(), es, i as int),
                        projector_entry_problems(*schema, Set::empty(), es, i as int));
                    assert(!projector_kept(*schema, es, i as int));
                    assert(projectors_pending(*schema, es, i + 1) =~= projectors_pending(*schema, es, i as int));
                }
                i = i + 1;
                continue;
            },
        };
        let ghost m1 = diagnostics@;
        let ghost raw_inputs = inputs@;
        let lowered_inputs = lower_inputs(file, source, spans, diagnostics, schema, name.as_str(), &selector, inputs, pending_type_refs);
        let ghost m2 = diagnostics@;
        let ghost p2 = pending_type_refs@;
        proof {
            assert(input_type_views(lowered_inputs@) =~= raw_input_views(raw_inputs)) by {
                assert forall|k: int| 0 <= k < raw_inputs.len() implies input_type_views(lowered_inputs@)[k] == raw_input_views(raw_inputs)[k] by {
                    assert(input_lowered(lowered_inputs@[k], *schema, name@, selector_view(selector), raw_inputs[k]));
                }
            }
        }
        let ghost raw_queries = queries@;
        let (lowered_queries, query_types) = lower_projector_queries(file, source, spans, diagnostics, schema, name.as_str(), &lowered_inputs, queries);
        let ghost m3 = diagnostics@;
        let ghost qs = query_types_upto(*schema, raw_queries, raw_queries.len() as int);
        let ghost raw_outputs = outputs@;
        let lowered_outputs = lower_outputs(file, source, spans, diagnostics, schema, name.as_str(), &lowered_inputs, &query_types, Ghost(qs),
            outputs, &mut seen_label_ids, pending_type_refs);
        proof {
            let ins = raw_input_views(raw_inputs);
            let sv = selector_view(selector);
            let p0 = selector_outcome(*schema, name@, r.candidates).0;
            let p1 = inputs_problems(*schema, name@, sv, raw_inputs, raw_inputs.len() as int);
            let pq = queries_of_problems(*schema, name@, ins, raw_queries, raw_queries.len() as int);
            let po = outputs_problems(*schema, name@, ins, qs, ids, raw_outputs, raw_outputs.len() as int);
            lemma_reported_trans(mid, m1, m2, p0, p1);
            lemma_reported_trans(mid, m2, m3, p0 + p1, pq);
            lemma_reported_trans(mid, m3, diagnostics@, p0 + p1 + pq, po);
            assert(projector_kept(*schema, es, i as int));
            assert(projector_label_ids(*schema, Set::empty(), es, i as int) == ids);
            assert(projector_entry_problems(*schema, Set::empty(), es, i as int) == p0 + p1 + pq + po);
            lemma_reported_trans(start, mid, diagnostics@, projectors_problems(*schema, Set::empty(), es, i as int), p0 + p1 + pq + po);
            let ip = inputs_pending(name@, raw_inputs, raw_inputs.len() as int);
            let op = outputs_pending(name@, raw_outputs, raw_outputs.len() as int);
            crate::manifest::lower::functions::lemma_pending_added_trans(pmid, p2, pending_type_refs@, ip, op);
            crate::manifest::lower::functions::lemma_pending_added_trans(pstart, pmid, pending_type_refs@, projectors_pending(*schema, es, i as int), ip + op);
            assert(projectors_pending(*schema, es, i + 1) =~= projectors_pending(*schema, es, i as int) + (ip + op));
        }
        let definition = SchemaPresentationProjectorDefinition {
            candidates: selector,
            inputs: lowered_inputs,
            queries: lowered_queries,
            outputs: lowered_outputs,
        };
        proof {
            assert(projector_lowered(definition, *schema, es[i as int]));
        }
        out.push((name, definition));
        proof {
            let idx_before = idx;
            idx = idx.push(i as int);
            assert forall|k: int| 0 <= k < out@.len() implies #[trigger] collected_at(*schema, es, out@, idx, k) by {
                if k < out_before.len() {
                    assert(out@[k] == out_before[k]);
                    assert(idx[k] == idx_before[k]);
                    assert(collected_at(*schema, es, out_before, idx_before, k));
                } else {
                    assert(idx[k] == i);
                    assert(out@[k].0@ == es[i as int].name@);
                }
            }
            assert forall|j: int| 0 <= j < i + 1 && #[trigger] projector_kept(*schema, es, j) implies idx.contains(j) by {
                if j == i {
                    assert(idx[idx.len() - 1] == j);
                } else {
                    assert(idx_before.contains(j));
                    let k = choose|k: int| 0 <= k < idx_before.len() && idx_before[k] == j;
                    assert(idx[k] == j);
                }
            }
        }
        i = i + 1;
    }
    proof {
        assert(i == es.len());
    }
    (out, Ghost(idx))
}

/// Lower the `presentation_projectors` section: each entry with a new
/// schema name whose selector lowers becomes a projector with its inputs,
/// queries and outputs; label template ids are unique across projectors.
pub fn lower_presentation_projectors(
    file: &str,
    source: &[char],
    spans: &mut ManifestSpans,
    entries: Vec<Named<RawPresentationProjectorDefinition>>,
    schema: &mut ProjectSchema,
    diagnostics: &mut Vec<Diagnostic>,
    pending_type_refs: &mut Vec<PendingTypeReference>,
)
    ensures
        reported(old(diagnostics)@, final(diagnostics)@, projectors_problems(*old(schema), Set::empty(), entries@, entries@.len() as int)),
        pending_added(old(pending_type_refs)@, final(pending_type_refs)@, projectors_pending(*old(schema), entries@, entries@.len() as int)),
        same_but_projectors(*old(schema), *final(schema)),
        forall|n: Seq<char>| #[trigger] final(schema).presentation_projectors.has(n) <==> (old(schema).presentation_projectors.has(n)
            || exists|i: int| 0 <= i < entries@.len() && projector_kept(*old(schema), entries@, i) && entries@[i].name@ == n),
        forall|i: int| 0 <= i < entries@.len() && #[trigger] projector_kept(*old(schema), entries@, i) ==> (
            final(schema).presentation_projectors.spec_get(entries@[i].name@) matches Some(d) && projector_lowered(d, *old(schema), entries@[i])),
{
    let ghost s0 = *schema;
    let ghost es = entries@;
    let ghost names = entry_names(es);
    let (collected_out, Ghost(idx)) = lower_projector_entries(file, source, spans, entries, schema, diagnostics, pending_type_refs);
    let ghost out = collected_out@;
    let mut rest = collected_out;
    let mut k: usize = 0;
    let total = rest.len();
    proof {
        assert(out.subrange(0, out.len() as int) =~= out);
    }
    while rest.len() > 0
        invariant
            total == out.len(),
            k <= out.len(),
            rest@ == out.subrange(k as int, out.len() as int),
            names == entry_names(es),
            collected(s0, es, out, idx, es.len() as int),
            same_but_projectors(s0, *schema),
            forall|n: Seq<char>| #[trigger] schema.presentation_projectors.has(n) <==> (s0.presentation_projectors.has(n)
                || exists|kk: int| 0 <= kk < k && out[kk].0@ == n),
            forall|kk: int| 0 <= kk < k ==> #[trigger] schema.presentation_projectors.spec_get(out[kk].0@) == Some(out[kk].1),
        decreases rest@.len(),
    {
        let (name, definition) = rest.remove(0);
        let ghost before = *schema;
        proof {
            assert((name, definition) == out[k as int]);
            assert(rest@ =~= out.subrange(k + 1, out.len() as int));
        }
        schema.presentation_projectors.insert(name, definition);
        proof {
            assert forall|kk: int| 0 <= kk < k + 1 implies #[trigger] schema.presentation_projectors.spec_get(out[kk].0@) == Some(out[kk].1) by {
                if kk < k {
                    assert(collected_at(s0, es, out, idx, kk));
                    assert(collected_at(s0, es, out, idx, k as int));
                    let a = idx[kk];
                    let b = idx[k as int];
                    assert(a < b);
                    assert(is_first_named(names, b));
                    assert(names[a] == out[kk].0@);
                    assert(names[b] == out[k as int].0@);
                    if out[kk].0@ == out[k as int].0@ {
                        assert(names.take(b)[a] == names[b]);
                    }
                }
            }
            assert forall|n: Seq<char>| #[trigger] schema.presentation_projectors.has(n) <==> (s0.presentation_projectors.has(n)
                || exists|kk: int| 0 <= kk < k + 1 && out[kk].0@ == n) by {
                assert(schema.presentation_projectors.keys().to_set().contains(n) == schema.presentation_projectors.has(n));
                assert(before.presentation_projectors.keys().to_set().contains(n) == before.presentation_projectors.has(n));
                if n == out[k as int].0@ {
                    assert(out[k as int].0@ == n);
                }
                if exists|kk: int| 0 <= kk < k + 1 && out[kk].0@ == n {
                    let kk = choose|kk: int| 0 <= kk < k + 1 && out[kk].0@ == n;
                    if kk < k {
                        assert(exists|k2: int| 0 <= k2 < k && out[k2].0@ == n);
                    }
                }
            }
        }
        k = k + 1;
    }
    proof {
        assert(k == out.len());
        assert forall|i: int| 0 <= i < es.len() && #[trigger] projector_kept(s0, es, i) implies (
            schema.presentation_projectors.spec_get(es[i].name@) matches Some(d) && projector_lowered(d, s0, es[i])) by {
            assert(idx.contains(i));
            let kk = choose|kk: int| 0 <= kk < idx.len() && idx[kk] == i;
            assert(collected_at(s0, es, out, idx, kk));
            assert(schema.presentation_projectors.spec_get(out[kk].0@) == Some(out[kk].1));
        }
        assert forall|n: Seq<char>| #[trigger] schema.presentation_projectors.has(n) <==> (s0.presentation_projectors.has(n)
            || exists|i: int| 0 <= i < es.len() && projector_kept(s0, es, i) && es[i].name@ == n) by {
            if exists|kk: int| 0 <= kk < k && out[kk].0@ == n {
                let kk = choose|kk: int| 0 <= kk < k && out[kk].0@ == n;
                assert(collected_at(s0, es, out, idx, kk));
                assert(projector_kept(s0, es, idx[kk]) && es[idx[kk]].name@ == n);
            }
            if exists|i: int| 0 <= i < es.len() && projector_kept(s0, es, i) && es[i].name@ == n {
                let i = choose|i: int| 0 <= i < es.len() && projector_kept(s0, es, i) && es[i].name@ == n;
                assert(idx.contains(i));
                let kk = choose|kk: int| 0 <= kk < idx.len() && idx[kk] == i;
                assert(collected_at(s0, es, out, idx, kk));
                assert(out[kk].0@ == n);
            }
        }
    }
}

} // verus!
