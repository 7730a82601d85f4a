//! Lowering of the schema-global projection query functions.
use vstd::prelude::*;
use crate::collections::StrSet;
use crate::diagnostics::{
    lemma_reported_none, lemma_reported_push, lemma_reported_trans, problem_of, report, reported,
    text_arg, ArgumentView, Diagnostic, Problem,
};
use crate::manifest::lower::definitions::{
    entry_names, is_first_named, lemma_push_contains_seq_pub, name_problems,
};
use crate::manifest::lower::domains::shape_problem;
use crate::manifest::lower::functions::{lemma_pending_added_trans, owner_text, params_lowered};
use crate::manifest::lower::parameters::{
    invalid_type_problem, lower_params_at, lower_type_reference_with_context, lowered_type,
    params_pending, params_problems, pending_added, pending_views, TypeReferenceContext,
};
use crate::manifest::raw::{Named, RawProjectionQueryFunctionDefinition};
use crate::manifest::spans::ManifestSpans;
use crate::manifest::validate::{
    duplicate_definition, duplicate_view, invalid_name_view, spec_is_manifest_name, type_ref_at,
    validate_manifest_name, PendingTypeReference,
};
use crate::model::{ProjectSchema, ProjectionQueryFunctionDefinition, TypeRefView};

verus! {

/// The message of a query function's invalid return type.
pub open spec fn query_return_message(name: Seq<char>, value: Seq<char>) -> Seq<char> {
    "projection query function '"@ + name + "' has invalid return type '"@ + value + "'"@
}

/// The problems reported for query function entry `i`.
pub open spec fn query_entry_problems(es: Seq<Named<RawProjectionQueryFunctionDefinition>>, i: int) -> Seq<Problem> {
    let names = entry_names(es);
    if !is_first_named(names, i) {
        name_problems(names, i, "projection query function name"@, "projection query function"@)
    } else {
        let r = es[i].value;
        let name = es[i].name@;
        let owner = owner_text("projection query function '"@, name);
        params_problems(owner, r.params@, r.params@.len() as int) + (if type_ref_at(r.returns@, 0) is Some {
            Seq::empty()
        } else {
            seq![invalid_type_problem(TypeReferenceContext::QueryReturn { function: es[i].name }, r.returns@,
                query_return_message(name, r.returns@))]
        }) + if r.max_calls_per_event == Some(0u32) {
            seq![shape_problem(
                "diagnostic-schema-001-query-max-calls"@,
                owner + " max_calls_per_event must be greater than zero"@,
                seq![("function"@, ArgumentView::Text(name))],
            )]
        } else {
            Seq::empty()
        }
    }
}

/// The problems reported for the first `n` query function entries.
pub open spec fn queries_problems(es: Seq<Named<RawProjectionQueryFunctionDefinition>>, n: int) -> Seq<Problem>
    decreases n,
{
    if n <= 0 {
        Seq::empty()
    } else {
        queries_problems(es, n - 1) + query_entry_problems(es, n - 1)
    }
}

/// The pending type references of query function entry `i`.
pub open spec fn query_entry_pending(es: Seq<Named<RawProjectionQueryFunctionDefinition>>, i: int) -> Seq<(Seq<char>, TypeRefView)> {
    if is_first_named(entry_names(es), i) {
        let r = es[i].value;
        let owner = owner_text("projection query function '"@, es[i].name@);
        params_pending(owner, r.params@, r.params@.len() as int) + match type_ref_at(r.returns@, 0) {
            Some(t) => seq![(owner + " return type"@, t)],
            None => Seq::empty(),
        }
    } else {
        Seq::empty()
    }
}

/// The pending type references of the first `n` query function entries.
pub open spec fn queries_pending(es: Seq<Named<RawProjectionQueryFunctionDefinition>>, n: int) -> Seq<(Seq<char>, TypeRefView)>
    decreases n,
{
    if n <= 0 {
        Seq::empty()
    } else {
        queries_pending(es, n - 1) + query_entry_pending(es, n - 1)
    }
}

/// The query function an entry lowers to.
pub open spec fn query_lowered(d: ProjectionQueryFunctionDefinition, e: Named<RawProjectionQueryFunctionDefinition>) -> bool {
    &&& params_lowered(owner_text("projection query function '"@, e.name@), d.params@, e.value.params@)
    &&& d.returns@ == lowered_type(e.value.returns@)
    &&& d.max_calls_per_event == e.value.max_calls_per_event
}

/// All fields of two schemas but the projection query functions agree.
pub open spec fn same_but_queries(a: ProjectSchema, b: ProjectSchema) -> bool {
    &&& a.schema_version == b.schema_version
    &&& a.types == b.types
    &&& a.registries == b.registries
    &&& a.speakers == b.speakers
    &&& a.conditions == b.conditions
    &&& a.availability_reasons == b.availability_reasons
    &&& a.effects == b.effects
    &&& a.metadata_domains == b.metadata_domains
    &&& a.metadata == b.metadata
    &&& a.presentation_projectors == b.presentation_projectors
    &&& a.markup == b.markup
    &&& a.producer_metadata == b.producer_metadata
}

/// Lower the `projection_queries` section: each entry with a new schema
/// name becomes a query function with its parameters and return type.
pub fn lower_projection_queries(
    file: &str,
    source: &[char],
    spans: &mut ManifestSpans,
    entries: Vec<Named<RawProjectionQueryFunctionDefinition>>,
    schema: &mut ProjectSchema,
    diagnostics: &mut Vec<Diagnostic>,
    pending_type_refs: &mut Vec<PendingTypeReference>,
)
    ensures
        reported(old(diagnostics)@, final(diagnostics)@, queries_problems(entries@, entries@.len() as int)),
        pending_added(old(pending_type_refs)@, final(pending_type_refs)@, queries_pending(entries@, entries@.len() as int)),
        same_but_queries(*old(schema), *final(schema)),
        forall|n: Seq<char>| #[trigger] final(schema).projection_queries.has(n) <==> (old(schema).projection_queries.has(n)
            || exists|i: int| 0 <= i < entries@.len() && is_first_named(entry_names(entries@), i) && entries@[i].name@ == n),
        forall|i: int| 0 <= i < entries@.len() && #[trigger] is_first_named(entry_names(entries@), i) ==> (
            final(schema).projection_queries.spec_get(entries@[i].name@) matches Some(d) && query_lowered(d, entries@[i])),
{
    let ghost es = entries@;
    let ghost names = entry_names(es);
    let ghost start = diagnostics@;
    let ghost pstart = pending_type_refs@;
    let ghost s0 = *schema;
    let mut entries = entries;
    let mut seen = StrSet::new();
    let mut i: usize = 0;
    proof {
        lemma_reported_none(start);
        assert(pending_type_refs@.subrange(0, pstart.len() as int) =~= pstart);
        assert(pending_views(pending_type_refs@.subrange(pstart.len() as int, pstart.len() as int)) =~= Seq::<(Seq<char>, TypeRefView)>::empty());
        assert(es.subrange(0, es.len() as int) =~= es);
    }
    let total = entries.len();
    while entries.len() > 0
        invariant
            total == es.len(),
            names == entry_names(es),
            i <= es.len(),
            entries@ == es.subrange(i as int, es.len() as int),
            same_but_queries(s0, *schema),
            reported(start, diagnostics@, queries_problems(es, i as int)),
            pending_added(pstart, pending_type_refs@, queries_pending(es, i as int)),
            forall|n: Seq<char>| #[trigger] seen.elem_set().contains(n) <==> (spec_is_manifest_name(n) && names.take(i as int).contains(n)),
            forall|n: Seq<char>| #[trigger] schema.projection_queries.has(n) <==> (s0.projection_queries.has(n)
                || exists|j: int| 0 <= j < i && is_first_named(names, j) && es[j].name@ == n),
            forall|j: int| 0 <= j < i && #[trigger] is_first_named(names, j) ==> (schema.projection_queries.spec_get(es[j].name@) matches Some(d)
                && query_lowered(d, es[j])),
        decreases entries@.len(),
    {
        let entry = entries.remove(0);
        let ghost mid = diagnostics@;
        let ghost pmid = pending_type_refs@;
        proof {
            assert(entry == es[i as int]);
            assert(entries@ =~= es.subrange(i + 1, es.len() as int));
            assert(names[i as int] == entry.name@);
            assert(names.take(i + 1) =~= names.take(i as int).push(entry.name@));
        }
        let name_span = spans.next_string_span(file, source, entry.name.as_str());
        let dup_span = name_span.copy();
        if !validate_manifest_name(diagnostics, "projection query function name", entry.name.as_str(), name_span.copy()) {
            proof {
                lemma_reported_push(start, mid, queries_problems(es, i as int), diagnostics@.last(), problem_of(invalid_name_view("projection query function name"@, arbitrary())));
                assert(diagnostics@ =~= mid.push(diagnostics@.last()));
                assert forall|n: Seq<char>| #[trigger] seen.elem_set().contains(n) <==> (spec_is_manifest_name(n) && names.take(i + 1).contains(n)) by {
                    lemma_push_contains_seq_pub(names.take(i as int), entry.name@, n);
                }
                assert(queries_pending(es, i + 1) =~= queries_pending(es, i as int));
            }
            i = i + 1;
            continue;
        }
        let ghost seen_before = seen;
        proof {
            assert(seen_before.elem_set().contains(entry.name@) == seen_before.elems().contains(entry.name@));
        }
        let fresh = seen.insert(crate::text::copy_string(&entry.name));
        proof {
            assert forall|n: Seq<char>| #[trigger] seen.elem_set().contains(n) <==> (spec_is_manifest_name(n) && names.take(i + 1).contains(n)) by {
                lemma_push_contains_seq_pub(names.take(i as int), entry.name@, n);
            }
        }
        if !fresh {
            duplicate_definition(diagnostics, "projection query function", entry.name.as_str(), dup_span);
            proof {
                lemma_reported_push(start, mid, queries_problems(es, i as int), diagnostics@.last(), problem_of(duplicate_view("projection query function"@, entry.name@, arbitrary())));
                assert(diagnostics@ =~= mid.push(diagnostics@.last()));
                assert(queries_pending(es, i + 1) =~= queries_pending(es, i as int));
            }
            i = i + 1;
            continue;
        }
        proof {
            assert(is_first_named(names, i as int));
        }
        let Named { name, value } = entry;
        let RawProjectionQueryFunctionDefinition { params: raw_params, returns: raw_returns, max_calls_per_event } = value;
        let owner = crate::text::concat3("projection query function '", name.as_str(), "'");
        let params = lower_params_at(file, source, spans, diagnostics, owner.as_str(), &raw_params, pending_type_refs);
        let ghost m1 = diagnostics@;
        let ghost p1 = pending_type_refs@;
        let returns_span = spans.next_string_span(file, source, raw_returns.as_str());
        let mut message = crate::text::concat3("projection query function '", name.as_str(), "' has invalid return type '");
        crate::text::push_text(&mut message, raw_returns.as_str());
        crate::text::push_text(&mut message, "'");
        let (ret, ret_span, ret_valid) = lower_type_reference_with_context(
            diagnostics,
            raw_returns.as_str(),
            returns_span,
            message,
            TypeReferenceContext::QueryReturn { function: crate::text::copy_string(&name) },
        );
        let ghost m2 = diagnostics@;
        if ret_valid {
            let powner = crate::text::concat2(owner.as_str(), " return type");
            pending_type_refs.push(PendingTypeReference { owner: powner, type_ref: ret.copy(), span: ret_span });
            proof {
                let added = pending_type_refs@.subrange(p1.len() as int, pending_type_refs@.len() as int);
                assert(added =~= seq![pending_type_refs@.last()]);
                assert(pending_views(added) =~= seq![(owner@ + " return type"@, ret@)]);
                assert(pending_type_refs@.subrange(0, p1.len() as int) =~= p1);
            }
        } else {
            proof {
                assert(pending_type_refs@.subrange(0, p1.len() as int) =~= p1);
                assert(pending_views(pending_type_refs@.subrange(p1.len() as int, p1.len() as int)) =~= Seq::<(Seq<char>, TypeRefView)>::empty());
            }
        }
        let ghost pr = if ret_valid { seq![(owner@ + " return type"@, ret@)] } else { Seq::<(Seq<char>, TypeRefView)>::empty() };
        proof {
            assert(pending_added(p1, pending_type_refs@, pr));
        }
        if max_calls_per_event == Some(0u32) {
            let message = crate::text::concat2(owner.as_str(), " max_calls_per_event must be greater than zero");
            let args = vec![text_arg("function", name.as_str())];
            proof {
                assert(crate::diagnostics::arguments_view(args@) =~= seq![("function"@, ArgumentView::Text(name@))]);
            }
            report(diagnostics, crate::diagnostics::malformed_shape(), "diagnostic-schema-001-query-max-calls", message, name_span, args);
        } else {
            proof {
                lemma_reported_none(m2);
            }
        }
        proof {
            let pp = params_problems(owner@, raw_params@, raw_params@.len() as int);
            let rp = if type_ref_at(raw_returns@, 0) is Some {
                Seq::<Problem>::empty()
            } else {
                seq![invalid_type_problem(TypeReferenceContext::QueryReturn { function: name }, raw_returns@,
                    query_return_message(name@, raw_returns@))]
            };
            let mp = if max_calls_per_event == Some(0u32) {
                seq![shape_problem(
                    "diagnostic-schema-001-query-max-calls"@,
                    owner@ + " max_calls_per_event must be greater than zero"@,
                    seq![("function"@, ArgumentView::Text(name@))],
                )]
            } else {
                Seq::<Problem>::empty()
            };
            if ret_valid {
                lemma_reported_none(m1);
                assert(m2 == m1);
            }
            lemma_reported_trans(mid, m1, m2, pp, rp);
            lemma_reported_trans(mid, m2, diagnostics@, pp + rp, mp);
            assert(owner@ == owner_text("projection query function '"@, es[i as int].name@));
            lemma_reported_trans(start, mid, diagnostics@, queries_problems(es, i as int), query_entry_problems(es, i as int));
            let ppend = params_pending(owner@, raw_params@, raw_params@.len() as int);
            lemma_pending_added_trans(pmid, p1, pending_type_refs@, ppend, pr);
            lemma_pending_added_trans(pstart, pmid, pending_type_refs@, queries_pending(es, i as int), ppend + pr);
            assert(queries_pending(es, i + 1) =~= queries_pending(es, i as int) + (ppend + pr));
        }
        let ghost before = *schema;
        schema.projection_queries.insert(
            name,
            ProjectionQueryFunctionDefinition { params, returns: ret, max_calls_per_event },
        );
        proof {
            assert forall|j: int| 0 <= j < i + 1 && #[trigger] is_first_named(names, j) implies (schema.projection_queries.spec_get(es[j].name@) matches Some(d)
                && query_lowered(d, es[j])) by {
                if j < i {
                    if names[j] == names[i as int] {
                        assert(names.take(i as int)[j] == names[i as int]);
                    }
                    assert(names[j] == es[j].name@);
                }
            }
            assert forall|n: Seq<char>| #[trigger] schema.projection_queries.has(n) <==> (s0.projection_queries.has(n)
                || exists|j: int| 0 <= j < i + 1 && is_first_named(names, j) && es[j].name@ == n) by {
                assert(schema.projection_queries.keys().to_set().contains(n) == schema.projection_queries.has(n));
                assert(before.projection_queries.keys().to_set().contains(n) == before.projection_queries.has(n));
                if n == es[i as int].name@ {
                    assert(is_first_named(names, i as int) && es[i as int].name@ == n);
                }
                if exists|j: int| 0 <= j < i + 1 && is_first_named(names, j) && es[j].name@ == n {
                    let j = choose|j: int| 0 <= j < i + 1 && is_first_named(names, j) && es[j].name@ == n;
                    if j < i {
                        assert(exists|j2: int| 0 <= j2 < i && is_first_named(names, j2) && es[j2].name@ == n);
                    }
                }
            }
        }
        i = i + 1;
    }
}

} // verus!
