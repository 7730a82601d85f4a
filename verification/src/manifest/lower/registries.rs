//! Lowering of content registries and of the provenance shared with domains.
use vstd::prelude::*;
use crate::collections::StrSet;
use crate::diagnostics::{
    lemma_reported_none, lemma_reported_push, lemma_reported_trans, problem_of, reported, Diagnostic,
    Problem,
};
use crate::manifest::lower::definitions::{
    canonical_string_values_at, entry_names, is_first_named, lemma_push_contains_seq_pub,
    name_problems, nonempty_values, texts, value_problems,
};
use crate::manifest::lower::functions::owner_text;
use crate::manifest::lower::producer::{
    fp_kept, fps_ordered, kept_views, opt_origin_map_values, origin_of, fps_problems, kept_count, lower_origin, lower_origin_value_map,
    lower_producer_fingerprints, lowered_fp_views, origin_key_kept, origin_kept,
    origin_map_problems, origin_problems, raw_fp_view, unknown_keys_problems,
    validate_origin_keys, value_origins_problem,
};
use crate::manifest::raw::{
    Named, RawOriginMap, RawProducerFingerprint, RawProducerOrigin, RawRegistryDefinition,
};
use crate::manifest::spans::ManifestSpans;
use crate::manifest::validate::{
    duplicate_definition, duplicate_view, invalid_name_view, spec_is_manifest_name,
    validate_manifest_name,
};
use crate::model::producer::{ProducerFingerprint, ProducerOrigin};
use crate::model::{ProjectSchema, RegistryDefinition};
use crate::order::sorted_texts_of;

verus! {

/// The problems of an optional origin.
pub open spec fn opt_origin_problems(owner: Seq<char>, o: Option<RawProducerOrigin>) -> Seq<Problem> {
    match o {
        Some(x) => origin_problems(owner, x),
        None => Seq::empty(),
    }
}

/// The lowered origin agrees with the raw one: present exactly when kept,
/// with the same kind, id and label.
pub open spec fn origin_lowered(x: Option<ProducerOrigin>, raw: Option<RawProducerOrigin>) -> bool {
    match raw {
        None => x is None,
        Some(o) => (x is Some <==> origin_kept(o)) && (x matches Some(y) ==> origin_of(y, o)),
    }
}

/// The problems of an optional `value_origins` object.
pub open spec fn value_map_problems(owner: Seq<char>, m: Option<RawOriginMap>) -> Seq<Problem> {
    match m {
        None => Seq::empty(),
        Some(RawOriginMap::Malformed) => seq![value_origins_problem(owner)],
        Some(RawOriginMap::Entries(es)) => origin_map_problems(owner, es@, es@.len() as int),
    }
}

/// The keys a `value_origins` object keeps.
pub open spec fn value_map_keys(m: Option<RawOriginMap>) -> Set<Seq<char>> {
    match m {
        Some(RawOriginMap::Entries(es)) => Set::new(|k: Seq<char>| origin_key_kept(es@, es@.len() as int, k)),
        _ => Set::empty(),
    }
}

/// The problems of a provenance-carrying value list: values, origin,
/// value origins, value origins that name no value, fingerprints.
pub open spec fn provenance_problems(
    owner: Seq<char>,
    values: Seq<Seq<char>>,
    origin: Option<RawProducerOrigin>,
    value_origins: Option<RawOriginMap>,
    fps: Seq<RawProducerFingerprint>,
    allow: bool,
) -> Seq<Problem> {
    let keys = sorted_texts_of(value_map_keys(value_origins));
    value_problems(owner, values) + opt_origin_problems(owner, origin) + value_map_problems(
        owner + " value"@,
        value_origins,
    ) + unknown_keys_problems(owner, nonempty_values(values), keys, keys.len() as int)
        + fps_problems(owner, fps, fps.len() as int, allow)
}

/// The fingerprints of a definition lowered from raw ones.
pub open spec fn fps_lowered(r: Seq<ProducerFingerprint>, raw: Seq<RawProducerFingerprint>, allow: bool) -> bool {
    &&& fps_ordered(lowered_fp_views(r))
    &&& r.len() == kept_count(raw, raw.len() as int, allow)
    &&& forall|v| #[trigger] lowered_fp_views(r).contains(v) <==> exists|i: int|
        0 <= i < raw.len() && fp_kept(raw, i, allow) && raw_fp_view(#[trigger] raw[i]) == v
    &&& lowered_fp_views(r).to_multiset() == kept_views(raw, raw.len() as int, allow).to_multiset()
}

/// The problems reported for registry entry `i`.
pub open spec fn registry_entry_problems(es: Seq<Named<RawRegistryDefinition>>, i: int, allow: bool) -> Seq<Problem> {
    let names = entry_names(es);
    if !is_first_named(names, i) {
        name_problems(names, i, "registry name"@, "registry"@)
    } else {
        let r = es[i].value;
        provenance_problems(
            owner_text("registry '"@, es[i].name@),
            texts(r.values@),
            r.origin,
            r.value_origins,
            r.producer_fingerprints@,
            allow,
        )
    }
}

/// The problems reported for the first `n` registry entries, in order.
pub open spec fn registries_problems(es: Seq<Named<RawRegistryDefinition>>, n: int, allow: bool) -> Seq<Problem>
    decreases n,
{
    if n <= 0 {
        Seq::empty()
    } else {
        registries_problems(es, n - 1, allow) + registry_entry_problems(es, n - 1, allow)
    }
}

/// The registry a registry entry lowers to.
pub open spec fn registry_lowered(d: RegistryDefinition, r: RawRegistryDefinition, allow: bool) -> bool {
    &&& d.values.elem_set() == nonempty_values(texts(r.values@))
    &&& origin_lowered(d.origin, r.origin)
    &&& d.value_origins.keys().to_set() == value_map_keys(r.value_origins)
    &&& opt_origin_map_values(d.value_origins, r.value_origins)
    &&& fps_lowered(d.producer_fingerprints@, r.producer_fingerprints@, allow)
}

/// All fields of two schemas but the registries agree.
pub open spec fn same_but_registries(a: ProjectSchema, b: ProjectSchema) -> bool {
    &&& a.schema_version == b.schema_version
    &&& a.types == b.types
    &&& a.speakers == b.speakers
    &&& a.conditions == b.conditions
    &&& a.availability_reasons == b.availability_reasons
    &&& a.effects == b.effects
    &&& a.metadata_domains == b.metadata_domains
    &&& a.metadata == b.metadata
    &&& a.projection_queries == b.projection_queries
    &&& a.presentation_projectors == b.presentation_projectors
    &&& a.markup == b.markup
    &&& a.producer_metadata == b.producer_metadata
}

/// Lowered provenance of a value list.
pub struct LoweredProvenance {
    pub values: StrSet,
    pub origin: Option<ProducerOrigin>,
    pub value_origins: crate::collections::StrMap<ProducerOrigin>,
    pub producer_fingerprints: Vec<ProducerFingerprint>,
}

/// Lower a value list with its provenance: the values, the origin, the
/// value origins (whose keys must be values) and the fingerprints.
pub fn lower_values_with_provenance(
    file: &str,
    source: &[char],
    spans: &mut ManifestSpans,
    diagnostics: &mut Vec<Diagnostic>,
    owner: &str,
    name_span: &crate::diagnostics::SourceSpan,
    values: &Vec<String>,
    origin: Option<RawProducerOrigin>,
    value_origins: Option<RawOriginMap>,
    producer_fingerprints: Vec<RawProducerFingerprint>,
    allow: bool,
) -> (r: LoweredProvenance)
    ensures
        reported(old(diagnostics)@, final(diagnostics)@, provenance_problems(owner@, texts(values@), origin, value_origins,
            producer_fingerprints@, allow)),
        r.values.elem_set() == nonempty_values(texts(values@)),
        origin_lowered(r.origin, origin),
        r.value_origins.keys().to_set() == value_map_keys(value_origins),
        opt_origin_map_values(r.value_origins, value_origins),
        fps_lowered(r.producer_fingerprints@, producer_fingerprints@, allow),
{
    let ghost start = diagnostics@;
    let ghost vo = value_origins;
    let ghost fs = producer_fingerprints@;
    let lowered_values = canonical_string_values_at(spans, file, source, diagnostics, owner, values);
    let ghost m1 = diagnostics@;
    let lowered_origin = lower_origin(file, source, spans, diagnostics, origin, owner);
    let ghost m2 = diagnostics@;
    proof {
        if origin is None {
            lemma_reported_none(m1);
        }
    }
    let value_owner = crate::text::concat2(owner, " value");
    let lowered_value_origins = lower_origin_value_map(file, source, spans, diagnostics, value_origins, value_owner.as_str(), name_span);
    let ghost m3 = diagnostics@;
    lowered_value_origins.proof_sorted();
    proof {
        if vo is None {
            lemma_reported_none(m2);
        }
        assert(lowered_value_origins.keys().to_set() =~= value_map_keys(vo)) by {
            assert forall|k: Seq<char>| lowered_value_origins.keys().to_set().contains(k) <==> value_map_keys(vo).contains(k) by {
                assert(lowered_value_origins.keys().to_set().contains(k) == lowered_value_origins.has(k));
            }
        }
        crate::order::lemma_sorted_texts_of(lowered_value_origins.keys());
    }
    validate_origin_keys(file, source, spans, diagnostics, owner, &lowered_values, &lowered_value_origins);
    let ghost m4 = diagnostics@;
    let lowered_fps = lower_producer_fingerprints(file, source, spans, diagnostics, producer_fingerprints, owner, allow);
    proof {
        let vs = texts(values@);
        let keys = sorted_texts_of(value_map_keys(vo));
        lemma_reported_trans(start, m1, m2, value_problems(owner@, vs), opt_origin_problems(owner@, origin));
        lemma_reported_trans(start, m2, m3, value_problems(owner@, vs) + opt_origin_problems(owner@, origin),
            value_map_problems(owner@ + " value"@, vo));
        lemma_reported_trans(start, m3, m4, value_problems(owner@, vs) + opt_origin_problems(owner@, origin)
            + value_map_problems(owner@ + " value"@, vo), unknown_keys_problems(owner@, nonempty_values(vs), keys, keys.len() as int));
        lemma_reported_trans(start, m4, diagnostics@, value_problems(owner@, vs) + opt_origin_problems(owner@, origin)
            + value_map_problems(owner@ + " value"@, vo) + unknown_keys_problems(owner@, nonempty_values(vs), keys, keys.len() as int),
            fps_problems(owner@, fs, fs.len() as int, allow));
    }
    LoweredProvenance {
        values: lowered_values,
        origin: lowered_origin,
        value_origins: lowered_value_origins,
        producer_fingerprints: lowered_fps,
    }
}

/// Lower the `registries` section: each entry with a new schema name
/// becomes a registry of its non-empty values with their provenance.
pub fn lower_registries(
    file: &str,
    source: &[char],
    spans: &mut ManifestSpans,
    entries: Vec<Named<RawRegistryDefinition>>,
    schema: &mut ProjectSchema,
    diagnostics: &mut Vec<Diagnostic>,
    allow_duplicate_fingerprints: bool,
)
    ensures
        reported(old(diagnostics)@, final(diagnostics)@, registries_problems(entries@, entries@.len() as int, allow_duplicate_fingerprints)),
        same_but_registries(*old(schema), *final(schema)),
        forall|n: Seq<char>| #[trigger] final(schema).registries.has(n) <==> (old(schema).registries.has(n)
            || exists|i: int| 0 <= i < entries@.len() && is_first_named(entry_names(entries@), i) && entries@[i].name@ == n),
        forall|i: int| 0 <= i < entries@.len() && #[trigger] is_first_named(entry_names(entries@), i) ==> (
            final(schema).registries.spec_get(entries@[i].name@) matches Some(d)
                && registry_lowered(d, entries@[i].value, allow_duplicate_fingerprints)),
{
    let ghost es = entries@;
    let ghost names = entry_names(es);
    let ghost start = diagnostics@;
    let ghost s0 = *schema;
    let ghost allow = allow_duplicate_fingerprints;
    let mut entries = entries;
    let mut seen = StrSet::new();
    let mut i: usize = 0;
    proof {
        lemma_reported_none(start);
        assert(es.subrange(0, es.len() as int) =~= es);
    }
    let total = entries.len();
    while entries.len() > 0
        invariant
            total == es.len(),
            names == entry_names(es),
            allow == allow_duplicate_fingerprints,
            i <= es.len(),
            entries@ == es.subrange(i as int, es.len() as int),
            same_but_registries(s0, *schema),
            reported(start, diagnostics@, registries_problems(es, i as int, allow)),
            forall|n: Seq<char>| #[trigger] seen.elem_set().contains(n) <==> (spec_is_manifest_name(n) && names.take(i as int).contains(n)),
            forall|n: Seq<char>| #[trigger] schema.registries.has(n) <==> (s0.registries.has(n)
                || exists|j: int| 0 <= j < i && is_first_named(names, j) && es[j].name@ == n),
            forall|j: int| 0 <= j < i && #[trigger] is_first_named(names, j) ==> (schema.registries.spec_get(es[j].name@) matches Some(d)
                && registry_lowered(d, es[j].value, allow)),
        decreases entries@.len(),
    {
        let entry = entries.remove(0);
        let ghost mid = diagnostics@;
        proof {
            assert(entry == es[i as int]);
            assert(entries@ =~= es.subrange(i + 1, es.len() as int));
            assert(names[i as int] == entry.name@);
            assert(names.take(i + 1) =~= names.take(i as int).push(entry.name@));
        }
        let name_span = spans.next_string_span(file, source, entry.name.as_str());
        let dup_span = name_span.copy();
        if !validate_manifest_name(diagnostics, "registry name", entry.name.as_str(), name_span.copy()) {
            proof {
                lemma_reported_push(start, mid, registries_problems(es, i as int, allow), diagnostics@.last(), problem_of(invalid_name_view("registry name"@, arbitrary())));
                assert(diagnostics@ =~= mid.push(diagnostics@.last()));
                assert forall|n: Seq<char>| #[trigger] seen.elem_set().contains(n) <==> (spec_is_manifest_name(n) && names.take(i + 1).contains(n)) by {
                    lemma_push_contains_seq_pub(names.take(i as int), entry.name@, n);
                }
            }
            i = i + 1;
            continue;
        }
        let ghost seen_before = seen;
        proof {
            assert(seen_before.elem_set().contains(entry.name@) == seen_before.elems().contains(entry.name@));
        }
        let fresh = seen.insert(crate::text::copy_string(&entry.name));
        proof {
            assert forall|n: Seq<char>| #[trigger] seen.elem_set().contains(n) <==> (spec_is_manifest_name(n) && names.take(i + 1).contains(n)) by {
                lemma_push_contains_seq_pub(names.take(i as int), entry.name@, n);
            }
        }
        if !fresh {
            duplicate_definition(diagnostics, "registry", entry.name.as_str(), dup_span);
            proof {
                lemma_reported_push(start, mid, registries_problems(es, i as int, allow), diagnostics@.last(), problem_of(duplicate_view("registry"@, entry.name@, arbitrary())));
                assert(diagnostics@ =~= mid.push(diagnostics@.last()));
            }
            i = i + 1;
            continue;
        }
        proof {
            assert(is_first_named(names, i as int));
        }
        let Named { name, value } = entry;
        let RawRegistryDefinition { values, origin, value_origins, producer_fingerprints } = value;
        let owner = crate::text::concat3("registry '", name.as_str(), "'");
        let lowered = lower_values_with_provenance(
            file,
            source,
            spans,
            diagnostics,
            owner.as_str(),
            &name_span,
            &values,
            origin,
            value_origins,
            producer_fingerprints,
            allow_duplicate_fingerprints,
        );
        proof {
            assert(owner@ == owner_text("registry '"@, es[i as int].name@));
            lemma_reported_trans(start, mid, diagnostics@, registries_problems(es, i as int, allow), registry_entry_problems(es, i as int, allow));
        }
        let ghost before = *schema;
        let LoweredProvenance { values, origin, value_origins, producer_fingerprints } = lowered;
        schema.registries.insert(
            name,
            RegistryDefinition { values, origin, value_origins, producer_fingerprints },
        );
        proof {
            assert forall|j: int| 0 <= j < i + 1 && #[trigger] is_first_named(names, j) implies (schema.registries.spec_get(es[j].name@) matches Some(d)
                && registry_lowered(d, es[j].value, allow)) by {
                if j < i {
                    if names[j] == names[i as int] {
                        assert(names.take(i as int)[j] == names[i as int]);
                    }
                    assert(names[j] == es[j].name@);
                }
            }
            assert forall|n: Seq<char>| #[trigger] schema.registries.has(n) <==> (s0.registries.has(n)
                || exists|j: int| 0 <= j < i + 1 && is_first_named(names, j) && es[j].name@ == n) by {
                assert(schema.registries.keys().to_set().contains(n) == schema.registries.has(n));
                assert(before.registries.keys().to_set().contains(n) == before.registries.has(n));
                if n == es[i as int].name@ {
                    assert(is_first_named(names, i as int) && es[i as int].name@ == n);
                }
                if exists|j: int| 0 <= j < i + 1 && is_first_named(names, j) && es[j].name@ == n {
                    let j = choose|j: int| 0 <= j < i + 1 && is_first_named(names, j) && es[j].name@ == n;
                    if j < i {
                        assert(exists|j2: int| 0 <= j2 < i && is_first_named(names, j2) && es[j2].name@ == n);
                    }
                }
            }
        }
        i = i + 1;
    }
}

} // verus!
