//! Lowering of metadata keys.
use vstd::prelude::*;
use crate::collections::StrSet;
use crate::diagnostics::{
    lemma_reported_none, lemma_reported_push, lemma_reported_trans, problem_of, reported, reports,
    schema_diagnostic, text_arg, ArgumentView, Diagnostic, Problem,
};
use crate::manifest::lower::definitions::{
    entry_names, is_first_named, lemma_push_contains_seq_pub, name_problems,
};
use crate::manifest::lower::functions::{lemma_pending_added_trans, owner_text};
use crate::manifest::lower::parameters::{
    invalid_type_problem, lower_type_reference_with_context, lowered_type, pending_added,
    pending_views, TypeReferenceContext,
};
use crate::manifest::raw::{Named, RawMetadataDefinition};
use crate::manifest::spans::ManifestSpans;
use crate::manifest::validate::{
    duplicate_definition, duplicate_view, invalid_name_view, metadata_target_of,
    parse_metadata_target, spec_is_manifest_name, type_ref_at, validate_manifest_name,
    PendingDomainReference, PendingTypeReference,
};
use crate::model::{
    MetadataDefinition, MetadataTarget, MetadataTargetSet, ProjectSchema, SchemaTypeRef, TypeRefView,
};

verus! {

/// All fields of two schemas but the metadata agree.
pub open spec fn same_but_metadata(a: ProjectSchema, b: ProjectSchema) -> bool {
    &&& a.schema_version == b.schema_version
    &&& a.types == b.types
    &&& a.registries == b.registries
    &&& a.speakers == b.speakers
    &&& a.conditions == b.conditions
    &&& a.availability_reasons == b.availability_reasons
    &&& a.effects == b.effects
    &&& a.metadata_domains == b.metadata_domains
    &&& a.projection_queries == b.projection_queries
    &&& a.presentation_projectors == b.presentation_projectors
    &&& a.markup == b.markup
    &&& a.producer_metadata == b.producer_metadata
}

/// Texts of a list of strings.
pub open spec fn target_texts(vs: Seq<String>) -> Seq<Seq<char>> {
    vs.map_values(|s: String| s@)
}

/// Some text before index `i` names target `t`.
pub open spec fn target_named_before(vs: Seq<Seq<char>>, i: int, t: MetadataTarget) -> bool {
    exists|k: int| 0 <= k < i && metadata_target_of(#[trigger] vs[k]) == Some(t)
}

/// The problems of a metadata key's target list.
pub open spec fn target_problems(name: Seq<char>, vs: Seq<Seq<char>>, n: int) -> Seq<Problem>
    decreases n,
{
    if n <= 0 {
        Seq::empty()
    } else {
        let v = vs[n - 1];
        target_problems(name, vs, n - 1) + match metadata_target_of(v) {
            None => seq![Problem {
                code: "RECITE_SCHEMA001"@,
                presentation_id: "diagnostic-schema-001-metadata-target"@,
                message: "metadata '"@ + name + "' uses unsupported target '"@ + v + "'"@,
                arguments: seq![("metadata"@, ArgumentView::Text(name)), ("target"@, ArgumentView::Text(v))],
            }],
            Some(t) => if target_named_before(vs, n - 1, t) {
                seq![Problem {
                    code: "RECITE_SCHEMA003"@,
                    presentation_id: "diagnostic-schema-003-metadata-target"@,
                    message: "metadata '"@ + name + "' repeats target '"@ + v + "'"@,
                    arguments: seq![("metadata"@, ArgumentView::Text(name)), ("target"@, ArgumentView::Text(v))],
                }]
            } else {
                Seq::empty()
            },
        }
    }
}

fn lower_targets(
    file: &str,
    source: &[char],
    spans: &mut ManifestSpans,
    diagnostics: &mut Vec<Diagnostic>,
    name: &str,
    targets: &Vec<String>,
) -> (r: MetadataTargetSet)
    ensures
        forall|t: MetadataTarget| #[trigger] r.has(t) <==> target_named_before(target_texts(targets@), targets@.len() as int, t),
        reported(old(diagnostics)@, final(diagnostics)@, target_problems(name@, target_texts(targets@), targets@.len() as int)),
{
    let ghost vs = target_texts(targets@);
    let ghost start = diagnostics@;
    let mut set = MetadataTargetSet::new();
    let mut i: usize = 0;
    proof {
        lemma_reported_none(start);
    }
    while i < targets.len()
        invariant
            vs == target_texts(targets@),
            i <= targets@.len(),
            forall|t: MetadataTarget| #[trigger] set.has(t) <==> target_named_before(vs, i as int, t),
            reported(start, diagnostics@, target_problems(name@, vs, i as int)),
        decreases targets@.len() - i,
    {
        let target = &targets[i];
        let ghost mid = diagnostics@;
        proof {
            assert(vs[i as int] == target@);
        }
        let span = spans.next_string_span(file, source, target.as_str());
        match parse_metadata_target(target.as_str()) {
            None => {
                let mut message = crate::text::concat3("metadata '", name, "' uses unsupported target '");
                crate::text::push_text(&mut message, target.as_str());
                crate::text::push_text(&mut message, "'");
                let args = vec![text_arg("metadata", name), text_arg("target", target.as_str())];
                let d = schema_diagnostic(crate::diagnostics::malformed_shape(), "diagnostic-schema-001-metadata-target", message, span, args);
                proof {
                    assert(crate::diagnostics::arguments_view(args@) =~= seq![
                        ("metadata"@, ArgumentView::Text(name@)),
                        ("target"@, ArgumentView::Text(target@)),
                    ]);
                    let p = target_problems(name@, vs, i + 1).last();
                    lemma_reported_push(start, mid, target_problems(name@, vs, i as int), d, p);
                    assert(target_problems(name@, vs, i as int).push(p) =~= target_problems(name@, vs, i + 1));
                    assert forall|t: MetadataTarget| #[trigger] set.has(t) <==> target_named_before(vs, i + 1, t) by {
                        if target_named_before(vs, i + 1, t) {
                            let k = choose|k: int| 0 <= k < i + 1 && metadata_target_of(#[trigger] vs[k]) == Some(t);
                            if k < i {
                                assert(target_named_before(vs, i as int, t));
                            }
                        }
                        if target_named_before(vs, i as int, t) {
                            let k = choose|k: int| 0 <= k < i && metadata_target_of(#[trigger] vs[k]) == Some(t);
                            assert(0 <= k < i + 1 && metadata_target_of(vs[k]) == Some(t));
                        }
                    }
                }
                diagnostics.push(d);
            },
            Some(t) => {
                let fresh = set.insert(t);
                proof {
                    assert(fresh == !target_named_before(vs, i as int, t));
                    assert forall|x: MetadataTarget| #[trigger] set.has(x) <==> target_named_before(vs, i + 1, x) by {
                        if target_named_before(vs, i + 1, x) {
                            let k = choose|k: int| 0 <= k < i + 1 && metadata_target_of(#[trigger] vs[k]) == Some(x);
                            if k < i {
                                assert(target_named_before(vs, i as int, x));
                            }
                        }
                        if target_named_before(vs, i as int, x) {
                            let k = choose|k: int| 0 <= k < i && metadata_target_of(#[trigger] vs[k]) == Some(x);
                            assert(0 <= k < i + 1 && metadata_target_of(vs[k]) == Some(x));
                        }
                        if x == t {
                            assert(metadata_target_of(vs[i as int]) == Some(x));
                        }
                    }
                }
                if !fresh {
                    let mut message = crate::text::concat3("metadata '", name, "' repeats target '");
                    crate::text::push_text(&mut message, target.as_str());
                    crate::text::push_text(&mut message, "'");
                    let args = vec![text_arg("metadata", name), text_arg("target", target.as_str())];
                    let d = schema_diagnostic(crate::diagnostics::duplicate_definition_code(), "diagnostic-schema-003-metadata-target", message, span, args);
                    proof {
                        assert(crate::diagnostics::arguments_view(args@) =~= seq![
                            ("metadata"@, ArgumentView::Text(name@)),
                            ("target"@, ArgumentView::Text(target@)),
                        ]);
                        let p = target_problems(name@, vs, i + 1).last();
                        lemma_reported_push(start, mid, target_problems(name@, vs, i as int), d, p);
                        assert(target_problems(name@, vs, i as int).push(p) =~= target_problems(name@, vs, i + 1));
                    }
                    diagnostics.push(d);
                } else {
                    proof {
                        assert(target_problems(name@, vs, i as int) =~= target_problems(name@, vs, i + 1));
                    }
                }
            },
        }
        i = i + 1;
    }
    set
}


/// The message of a metadata key's invalid type reference.
pub open spec fn metadata_type_message(name: Seq<char>, value: Seq<char>) -> Seq<char> {
    "metadata '"@ + name + "' has invalid type reference '"@ + value + "'"@
}

/// The problems reported for a lowered metadata entry's type and domain.
pub open spec fn metadata_type_problems(e: Named<RawMetadataDefinition>) -> Seq<Problem> {
    let name = e.name@;
    let raw = e.value.type_ref@;
    let t = lowered_type(raw);
    let invalid = match type_ref_at(raw, 0) {
        None => seq![invalid_type_problem(TypeReferenceContext::Metadata { metadata: e.name }, raw, metadata_type_message(name, raw))],
        Some(_) => Seq::empty(),
    };
    let array = if t is Array {
        seq![Problem {
            code: "RECITE_SCHEMA001"@,
            presentation_id: "diagnostic-schema-001-metadata-array-type"@,
            message: "metadata '"@ + name + "' uses projection-only array type '"@ + raw + "'"@,
            arguments: seq![("metadata"@, ArgumentView::Text(name)), ("type_ref"@, ArgumentView::Text(raw))],
        }]
    } else {
        Seq::empty()
    };
    let domain = if e.value.domain is Some && t != TypeRefView::Symbol {
        seq![Problem {
            code: "RECITE_SCHEMA001"@,
            presentation_id: "diagnostic-schema-001-metadata-domain-type"@,
            message: "metadata '"@ + name + "' uses a metadata domain but has non-symbol type '"@ + raw + "'"@,
            arguments: seq![("metadata"@, ArgumentView::Text(name)), ("type_ref"@, ArgumentView::Text(raw))],
        }]
    } else {
        Seq::empty()
    };
    invalid + array + domain
}

/// The problems reported for metadata entry `i`.
pub open spec fn metadata_entry_problems(es: Seq<Named<RawMetadataDefinition>>, i: int) -> Seq<Problem> {
    let names = entry_names(es);
    if !is_first_named(names, i) {
        name_problems(names, i, "metadata name"@, "metadata"@)
    } else {
        let vs = target_texts(es[i].value.targets@);
        target_problems(es[i].name@, vs, vs.len() as int) + metadata_type_problems(es[i])
    }
}

/// The problems reported for the first `n` metadata entries.
pub open spec fn metadata_problems(es: Seq<Named<RawMetadataDefinition>>, n: int) -> Seq<Problem>
    decreases n,
{
    if n <= 0 {
        Seq::empty()
    } else {
        metadata_problems(es, n - 1) + metadata_entry_problems(es, n - 1)
    }
}

/// The pending type references of the first `n` metadata entries.
pub open spec fn metadata_pending(es: Seq<Named<RawMetadataDefinition>>, n: int) -> Seq<(Seq<char>, TypeRefView)>
    decreases n,
{
    if n <= 0 {
        Seq::empty()
    } else {
        metadata_pending(es, n - 1) + if is_first_named(entry_names(es), n - 1) && type_ref_at(es[n - 1].value.type_ref@, 0) is Some {
            seq![(owner_text("metadata '"@, es[n - 1].name@), lowered_type(es[n - 1].value.type_ref@))]
        } else {
            Seq::empty()
        }
    }
}

/// View of pending domain references: (owner, domain, whether a flat domain is required).
pub open spec fn domain_refs_view(ps: Seq<PendingDomainReference>) -> Seq<(Seq<char>, Seq<char>, bool)> {
    ps.map_values(|p: PendingDomainReference| (p.owner@, p.domain@, p.require_flat))
}

/// `new` begins with the references of `old`, unchanged.
pub open spec fn domain_refs_extend(old: Seq<PendingDomainReference>, new: Seq<PendingDomainReference>) -> bool {
    old.len() <= new.len() && new.subrange(0, old.len() as int) == old
}

/// Extension of pending domain references is transitive.
pub proof fn lemma_domain_refs_extend_trans(
    a: Seq<PendingDomainReference>,
    b: Seq<PendingDomainReference>,
    c: Seq<PendingDomainReference>,
)
    requires
        domain_refs_extend(a, b),
        domain_refs_extend(b, c),
    ensures
        domain_refs_extend(a, c),
{
    assert(c.subrange(0, a.len() as int) =~= c.subrange(0, b.len() as int).subrange(0, a.len() as int));
}

/// The pending domain references of the first `n` metadata entries.
pub open spec fn metadata_domain_refs(es: Seq<Named<RawMetadataDefinition>>, n: int) -> Seq<(Seq<char>, Seq<char>, bool)>
    decreases n,
{
    if n <= 0 {
        Seq::empty()
    } else {
        metadata_domain_refs(es, n - 1) + if is_first_named(entry_names(es), n - 1) && es[n - 1].value.domain is Some
            && lowered_type(es[n - 1].value.type_ref@) == TypeRefView::Symbol {
            seq![(owner_text("metadata '"@, es[n - 1].name@), es[n - 1].value.domain->0@, false)]
        } else {
            Seq::empty()
        }
    }
}

/// The metadata definition an entry lowers to.
pub open spec fn metadata_lowered(d: MetadataDefinition, e: Named<RawMetadataDefinition>) -> bool {
    &&& forall|t: MetadataTarget| #[trigger] d.targets.has(t) <==> target_named_before(target_texts(e.value.targets@), e.value.targets@.len() as int, t)
    &&& d.type_ref@ == lowered_type(e.value.type_ref@)
    &&& d.repeatable == e.value.repeatable
    &&& crate::model::canonical::opt_text(d.domain) == crate::model::canonical::opt_text(e.value.domain)
}

/// Lower the `metadata` section: each entry with a new schema name becomes a
/// metadata key with its targets, type, repeatability and domain.
pub fn lower_metadata(
    file: &str,
    source: &[char],
    spans: &mut ManifestSpans,
    entries: Vec<Named<RawMetadataDefinition>>,
    schema: &mut ProjectSchema,
    diagnostics: &mut Vec<Diagnostic>,
    pending_type_refs: &mut Vec<PendingTypeReference>,
    pending_domain_refs: &mut Vec<PendingDomainReference>,
)
    ensures
        reported(old(diagnostics)@, final(diagnostics)@, metadata_problems(entries@, entries@.len() as int)),
        pending_added(old(pending_type_refs)@, final(pending_type_refs)@, metadata_pending(entries@, entries@.len() as int)),
        domain_refs_view(final(pending_domain_refs)@) == domain_refs_view(old(pending_domain_refs)@) + metadata_domain_refs(entries@, entries@.len() as int),
        domain_refs_extend(old(pending_domain_refs)@, final(pending_domain_refs)@),
        same_but_metadata(*old(schema), *final(schema)),
        forall|n: Seq<char>| #[trigger] final(schema).metadata.has(n) <==> (old(schema).metadata.has(n)
            || exists|i: int| 0 <= i < entries@.len() && is_first_named(entry_names(entries@), i) && entries@[i].name@ == n),
        forall|i: int| 0 <= i < entries@.len() && #[trigger] is_first_named(entry_names(entries@), i) ==> (
            final(schema).metadata.spec_get(entries@[i].name@) matches Some(d) && metadata_lowered(d, entries@[i])),
{
    let ghost es = entries@;
    let ghost names = entry_names(es);
    let ghost start = diagnostics@;
    let ghost pstart = pending_type_refs@;
    let ghost dstart = pending_domain_refs@;
    let ghost s0 = *schema;
    let mut seen = StrSet::new();
    let mut i: usize = 0;
    proof {
        lemma_reported_none(start);
        assert(pending_type_refs@.subrange(0, pstart.len() as int) =~= pstart);
        assert(pending_views(pending_type_refs@.subrange(pstart.len() as int, pstart.len() as int)) =~= Seq::<(Seq<char>, TypeRefView)>::empty());
        assert(domain_refs_view(dstart) + metadata_domain_refs(es, 0) =~= domain_refs_view(dstart));
        assert(dstart.subrange(0, dstart.len() as int) =~= dstart);
    }
    while i < entries.len()
        invariant
            es == entries@,
            names == entry_names(es),
            i <= es.len(),
            same_but_metadata(s0, *schema),
            reported(start, diagnostics@, metadata_problems(es, i as int)),
            pending_added(pstart, pending_type_refs@, metadata_pending(es, i as int)),
            domain_refs_view(pending_domain_refs@) == domain_refs_view(dstart) + metadata_domain_refs(es, i as int),
            domain_refs_extend(dstart, pending_domain_refs@),
            forall|n: Seq<char>| #[trigger] seen.elem_set().contains(n) <==> (spec_is_manifest_name(n) && names.take(i as int).contains(n)),
            forall|n: Seq<char>| #[trigger] schema.metadata.has(n) <==> (s0.metadata.has(n)
                || exists|j: int| 0 <= j < i && is_first_named(names, j) && es[j].name@ == n),
            forall|j: int| 0 <= j < i && #[trigger] is_first_named(names, j) ==> (schema.metadata.spec_get(es[j].name@) matches Some(d)
                && metadata_lowered(d, es[j])),
        decreases es.len() - i,
    {
        let entry = &entries[i];
        let ghost mid = diagnostics@;
        let ghost pmid = pending_type_refs@;
        let ghost dmid = pending_domain_refs@;
        proof {
            assert(names[i as int] == entry.name@);
            assert(names.take(i + 1) =~= names.take(i as int).push(entry.name@));
        }
        let name_span = spans.next_string_span(file, source, entry.name.as_str());
        let dup_span = name_span.copy();
        if !validate_manifest_name(diagnostics, "metadata name", entry.name.as_str(), name_span) {
            proof {
                lemma_reported_push(start, mid, metadata_problems(es, i as int), diagnostics@.last(), problem_of(invalid_name_view("metadata name"@, arbitrary())));
                assert(diagnostics@ =~= mid.push(diagnostics@.last()));
                assert forall|n: Seq<char>| #[trigger] seen.elem_set().contains(n) <==> (spec_is_manifest_name(n) && names.take(i + 1).contains(n)) by {
                    lemma_push_contains_seq_pub(names.take(i as int), entry.name@, n);
                }
                assert(metadata_pending(es, i + 1) =~= metadata_pending(es, i as int));
                assert(metadata_domain_refs(es, i + 1) =~= metadata_domain_refs(es, i as int));
            }
            i = i + 1;
            continue;
        }
        let ghost seen_before = seen;
        proof {
            assert(seen_before.elem_set().contains(entry.name@) == seen_before.elems().contains(entry.name@));
        }
        let fresh = seen.insert(crate::text::copy_string(&entry.name));
        proof {
            assert forall|n: Seq<char>| #[trigger] seen.elem_set().contains(n) <==> (spec_is_manifest_name(n) && names.take(i + 1).contains(n)) by {
                lemma_push_contains_seq_pub(names.take(i as int), entry.name@, n);
            }
        }
        if !fresh {
            duplicate_definition(diagnostics, "metadata", entry.name.as_str(), dup_span);
            proof {
                lemma_reported_push(start, mid, metadata_problems(es, i as int), diagnostics@.last(), problem_of(duplicate_view("metadata"@, entry.name@, arbitrary())));
                assert(diagnostics@ =~= mid.push(diagnostics@.last()));
                assert(metadata_pending(es, i + 1) =~= metadata_pending(es, i as int));
                assert(metadata_domain_refs(es, i + 1) =~= metadata_domain_refs(es, i as int));
            }
            i = i + 1;
            continue;
        }
        proof {
            assert(is_first_named(names, i as int));
        }
        let targets = lower_targets(file, source, spans, diagnostics, entry.name.as_str(), &entry.value.targets);
        let ghost m2 = diagnostics@;
        let type_span = spans.next_string_span(file, source, entry.value.type_ref.as_str());
        let mut message = crate::text::concat3("metadata '", entry.name.as_str(), "' has invalid type reference '");
        crate::text::push_text(&mut message, entry.value.type_ref.as_str());
        crate::text::push_text(&mut message, "'");
        let (type_ref, type_ref_span, valid) = lower_type_reference_with_context(
            diagnostics,
            entry.value.type_ref.as_str(),
            type_span,
            message,
            TypeReferenceContext::Metadata { metadata: crate::text::copy_string(&entry.name) },
        );
        let ghost m3 = diagnostics@;
        let ghost invalid_probs = if valid {
            Seq::<Problem>::empty()
        } else {
            seq![invalid_type_problem(TypeReferenceContext::Metadata { metadata: entry.name }, entry.value.type_ref@, metadata_type_message(entry.name@, entry.value.type_ref@))]
        };
        proof {
            if valid {
                lemma_reported_none(m2);
            }
        }
        let owner = crate::text::concat3("metadata '", entry.name.as_str(), "'");
        if valid {
            pending_type_refs.push(PendingTypeReference {
                owner: crate::text::copy_string(&owner),
                type_ref: type_ref.copy(),
                span: type_ref_span.copy(),
            });
            proof {
                let added = pending_type_refs@.subrange(pstart.len() as int, pending_type_refs@.len() as int);
                let prev = pmid.subrange(pstart.len() as int, pmid.len() as int);
                assert(added =~= prev.push(pending_type_refs@.last()));
                assert(pending_views(added) =~= pending_views(prev).push((owner@, type_ref@)));
                assert(pending_type_refs@.subrange(0, pstart.len() as int) =~= pmid.subrange(0, pstart.len() as int));
                assert(metadata_pending(es, i as int).push((owner@, type_ref@)) =~= metadata_pending(es, i + 1));
            }
        } else {
            proof {
                assert(metadata_pending(es, i + 1) =~= metadata_pending(es, i as int));
            }
        }
        let is_array = match type_ref {
            SchemaTypeRef::Array(_) => true,
            _ => false,
        };
        let ghost array_probs = if is_array {
            seq![metadata_type_problems(es[i as int])[invalid_probs.len() as int]]
        } else {
            Seq::<Problem>::empty()
        };
        proof {
            lemma_reported_none(m3);
        }
        if is_array {
            let mut message = crate::text::concat3("metadata '", entry.name.as_str(), "' uses projection-only array type '");
            crate::text::push_text(&mut message, entry.value.type_ref.as_str());
            crate::text::push_text(&mut message, "'");
            let args = vec![text_arg("metadata", entry.name.as_str()), text_arg("type_ref", entry.value.type_ref.as_str())];
            let d = schema_diagnostic(crate::diagnostics::malformed_shape(), "diagnostic-schema-001-metadata-array-type", message, type_ref_span.copy(), args);
            proof {
                assert(crate::diagnostics::arguments_view(args@) =~= seq![
                    ("metadata"@, ArgumentView::Text(entry.name@)),
                    ("type_ref"@, ArgumentView::Text(entry.value.type_ref@)),
                ]);
                lemma_reported_push(m3, m3, Seq::empty(), d, array_probs[0]);
                assert(Seq::<Problem>::empty().push(array_probs[0]) =~= array_probs);
            }
            diagnostics.push(d);
        }
        let ghost m4 = diagnostics@;
        let is_symbol = match type_ref {
            SchemaTypeRef::Symbol => true,
            _ => false,
        };
        let ghost domain_probs = if entry.value.domain is Some && !is_symbol {
            seq![metadata_type_problems(es[i as int])[(invalid_probs.len() + array_probs.len()) as int]]
        } else {
            Seq::<Problem>::empty()
        };
        proof {
            lemma_reported_none(m4);
        }
        match &entry.value.domain {
            Some(domain) => {
                let domain_span = spans.next_string_span(file, source, domain.as_str());
                if !is_symbol {
                    let mut message = crate::text::concat3("metadata '", entry.name.as_str(), "' uses a metadata domain but has non-symbol type '");
                    crate::text::push_text(&mut message, entry.value.type_ref.as_str());
                    crate::text::push_text(&mut message, "'");
                    let args = vec![text_arg("metadata", entry.name.as_str()), text_arg("type_ref", entry.value.type_ref.as_str())];
                    let d = schema_diagnostic(crate::diagnostics::malformed_shape(), "diagnostic-schema-001-metadata-domain-type", message, domain_span, args);
                    proof {
                        assert(crate::diagnostics::arguments_view(args@) =~= seq![
                            ("metadata"@, ArgumentView::Text(entry.name@)),
                            ("type_ref"@, ArgumentView::Text(entry.value.type_ref@)),
                        ]);
                        lemma_reported_push(m4, m4, Seq::empty(), d, domain_probs[0]);
                        assert(Seq::<Problem>::empty().push(domain_probs[0]) =~= domain_probs);
                        assert(metadata_domain_refs(es, i + 1) =~= metadata_domain_refs(es, i as int));
                    }
                    diagnostics.push(d);
                } else {
                    pending_domain_refs.push(PendingDomainReference {
                        owner: crate::text::copy_string(&owner),
                        domain: crate::text::copy_string(domain),
                        require_flat: false,
                        span: domain_span,
                    });
                    proof {
                        assert(domain_refs_view(pending_domain_refs@) =~= domain_refs_view(dmid).push((owner@, domain@, false)));
                        assert(pending_domain_refs@.subrange(0, dmid.len() as int) =~= dmid);
                        lemma_domain_refs_extend_trans(dstart, dmid, pending_domain_refs@);
                        assert(metadata_domain_refs(es, i + 1) =~= metadata_domain_refs(es, i as int) + seq![(owner@, domain@, false)]);
                    }
                }
            },
            None => {
                proof {
                    assert(metadata_domain_refs(es, i + 1) =~= metadata_domain_refs(es, i as int));
                }
            },
        }
        proof {
            let tp = target_problems(entry.name@, target_texts(entry.value.targets@), entry.value.targets@.len() as int);
            assert(invalid_probs + array_probs + domain_probs =~= metadata_type_problems(es[i as int]));
            lemma_reported_trans(m2, m3, m4, invalid_probs, array_probs);
            lemma_reported_trans(m2, m4, diagnostics@, invalid_probs + array_probs, domain_probs);
            lemma_reported_trans(mid, m2, diagnostics@, tp, invalid_probs + array_probs + domain_probs);
            lemma_reported_trans(start, mid, diagnostics@, metadata_problems(es, i as int), metadata_entry_problems(es, i as int));
        }
        let ghost before = *schema;
        schema.metadata.insert(
            crate::text::copy_string(&entry.name),
            MetadataDefinition {
                targets,
                type_ref,
                repeatable: entry.value.repeatable,
                domain: match &entry.value.domain {
                    Some(d) => Some(crate::text::copy_string(d)),
                    None => None,
                },
            },
        );
        proof {
            assert forall|j: int| 0 <= j < i + 1 && #[trigger] is_first_named(names, j) implies (schema.metadata.spec_get(es[j].name@) matches Some(d)
                && metadata_lowered(d, es[j])) by {
                if j < i {
                    if names[j] == names[i as int] {
                        assert(names.take(i as int)[j] == names[i as int]);
                    }
                    assert(names[j] == es[j].name@);
                }
            }
            assert forall|n: Seq<char>| #[trigger] schema.metadata.has(n) <==> (s0.metadata.has(n)
                || exists|j: int| 0 <= j < i + 1 && is_first_named(names, j) && es[j].name@ == n) by {
                assert(schema.metadata.keys().to_set().contains(n) == schema.metadata.has(n));
                assert(before.metadata.keys().to_set().contains(n) == before.metadata.has(n));
                if n == entry.name@ {
                    assert(is_first_named(names, i as int) && es[i as int].name@ == n);
                }
                if exists|j: int| 0 <= j < i + 1 && is_first_named(names, j) && es[j].name@ == n {
                    let j = choose|j: int| 0 <= j < i + 1 && is_first_named(names, j) && es[j].name@ == n;
                    if j < i {
                        assert(exists|j2: int| 0 <= j2 < i && is_first_named(names, j2) && es[j2].name@ == n);
                    }
                }
            }
        }
        i = i + 1;
    }
}

} // verus!
