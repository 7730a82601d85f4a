//! Loading a generated schema manifest: every section is lowered in turn,
//! references are checked once all definitions are known, and the schema
//! is returned only when nothing was reported.
use vstd::prelude::*;
use crate::diagnostics::{
    extends, lemma_extends_trans, lemma_reported_trans, problem_with, report,
    reported, text_arg, ArgumentView, Diagnostic, DiagnosticArgumentValue, Problem,
    SourcePosition, SourceSpan,
};
use crate::manifest::lower::availability::{
    lower_availability_reasons, reason_lowered, reasons_pending, reasons_problems,
};
use crate::manifest::lower::content::{
    domain_refs_view, lower_metadata, metadata_domain_refs, metadata_lowered, metadata_pending, metadata_problems,
};
use crate::manifest::lower::definitions::{
    entry_names, enum_values, is_first_named, lower_markup, lower_speakers, lower_types, markup_of,
    markup_problems, nonempty_values, speakers_problems, texts, type_kept, types_problems,
};
use crate::model::canonical::opt_text;
use crate::manifest::lower::domains::{
    domain_entry_kept, domain_lowered, domains_problems, domains_refs, lower_metadata_domains,
};
use crate::manifest::lower::functions::{
    condition_lowered, conditions_mappings, conditions_pending, conditions_problems, effect_lowered, effects_pending,
    effects_problems, lower_conditions, lower_effects, mappings_view, owner_text, params_lowered, return_of, return_view,
    same_but_conditions, PendingConditionAvailabilityReasonMapping,
};
use crate::manifest::lower::mapping::{
    condition_mapped, mapping_results, mappings_problems, validate_condition_availability_reason_mappings,
};
use crate::manifest::outcome::{
    domain_ref_problems, lemma_domain_refs_reported, lemma_type_refs_reported, type_ref_problems,
};
use crate::manifest::lower::producer::{
    blank_producer, lower_producer_metadata, producer_metadata_lowered, producer_metadata_problems,
    ProducerMetadataInput,
};
use crate::manifest::lower::projectors::lower_presentation_projectors;
use crate::manifest::lower::queries::{lower_projection_queries, queries_pending, queries_problems, query_lowered};
use crate::manifest::lower::registries::{lower_registries, registries_problems, registry_lowered};
use crate::manifest::raw::{
    Named, RawAvailabilityReasonDefinition, RawConditionAvailabilityReasonMapping, RawConditionDefinition,
    RawEffectDefinition, RawManifest,
    RawMarkupDefinition, RawMetadataDefinition, RawMetadataDomainDefinition,
    RawPresentationProjectorDefinition, RawProjectionQueryFunctionDefinition, RawRegistryDefinition,
    RawSpeakerDefinition, RawTypeDefinition, RawValue,
};
use crate::manifest::spans::{
    document_start_span, number_token_range, top_level_number_token, ManifestSourceFormat, ManifestSpans,
};
use crate::manifest::validate::{
    domain_refs_diagnostics, missing_type_target, type_refs_diagnostics, validate_domain_references,
    validate_type_references,
    PendingDomainReference, PendingTypeReference,
};
use crate::manifest::lower::parameters::{pending_added, pending_views};
use crate::manifest::lower::projectors::{projector_kept, projector_lowered, projectors_pending, projectors_problems};
use crate::model::TypeRefView;
use crate::manifest::resolve::{lemma_loaded_references_resolve, references_resolve};
use crate::manifest::version::{schema_version_from_token, version_of, SchemaVersion};
use crate::model::{MetadataDomainDefinition, ProjectSchema};

verus! {

/// Options of a manifest load.
#[derive(Clone, Copy, Debug)]
pub struct ManifestLoadOptions {
    /// Keep producer fingerprints that repeat a (kind, id) pair instead of reporting them.
    pub allow_duplicate_producer_fingerprints: bool,
}

/// Result of loading a generated schema manifest.
#[derive(Debug)]
pub struct SchemaLoadReport {
    pub schema: Option<ProjectSchema>,
    pub diagnostics: Vec<Diagnostic>,
}

/// Why the manifest text is not a manifest, as the JSON reader reported it.
#[derive(Debug)]
pub struct ManifestParseError {
    /// The reader's description of the error.
    pub message: String,
    /// One-based line of the error; zero when unknown.
    pub line: usize,
    /// One-based column of the error; zero when unknown.
    pub column: usize,
}

/// The problem of a schema version that is not one.
pub open spec fn version_problems(v: Option<Option<Seq<char>>>) -> Seq<Problem> {
    match v {
        Some(None) => Seq::empty(),
        Some(Some(t)) => seq![problem_with(
            "RECITE_SCHEMA002"@,
            "diagnostic-schema-002-unsupported-version"@,
            "unsupported schema manifest version "@ + t,
            seq![("version"@, ArgumentView::Text(t))],
        )],
        None => seq![problem_with(
            "RECITE_SCHEMA001"@,
            "diagnostic-schema-001-schema-version-type"@,
            "schema_version must be an integer"@,
            Seq::empty(),
        )],
    }
}

/// Report a declared schema version other than one.
pub fn report_schema_version(diagnostics: &mut Vec<Diagnostic>, version: SchemaVersion, span: SourceSpan)
    ensures
        reported(old(diagnostics)@, final(diagnostics)@, version_problems(crate::manifest::version::version_view(version))),
{
    match version {
        SchemaVersion::One => {
            proof {
                crate::diagnostics::lemma_reported_none(diagnostics@);
            }
        },
        SchemaVersion::Unsupported(token) => {
            let message = crate::text::concat2("unsupported schema manifest version ", token.as_str());
            let args = vec![text_arg("version", token.as_str())];
            proof {
                assert(crate::diagnostics::arguments_view(args@) =~= seq![("version"@, ArgumentView::Text(token@))]);
            }
            report(diagnostics, crate::diagnostics::unsupported_version(), "diagnostic-schema-002-unsupported-version", message, span, args);
        },
        SchemaVersion::Malformed => {
            let args: Vec<(String, DiagnosticArgumentValue)> = Vec::new();
            proof {
                assert(crate::diagnostics::arguments_view(args@) =~= Seq::<(Seq<char>, ArgumentView)>::empty());
            }
            report(diagnostics, crate::diagnostics::malformed_shape(), "diagnostic-schema-001-schema-version-type",
                String::from_str("schema_version must be an integer"), span, args);
        },
    }
}

/// The manifest-level producer fields of a read manifest.
pub open spec fn producer_input(raw: RawManifest, allow: bool) -> ProducerMetadataInput {
    ProducerMetadataInput {
        producer: raw.producer,
        content_fingerprint: raw.content_fingerprint,
        schema_export_version: raw.schema_export_version,
        inclusion_policy: raw.inclusion_policy,
        producer_fingerprints: raw.producer_fingerprints,
        allow_duplicate_fingerprints: allow,
    }
}

/// The version a manifest declares (see `version_view`): its `schema_version`
/// value with the number token written for it. A JSON token is read back
/// from the text; a TOML reader keeps the number as written, so its lexeme
/// is the token.
pub open spec fn declared_version(v: RawValue, source: Seq<char>, format: ManifestSourceFormat) -> Option<
    Option<Seq<char>>,
> {
    let token = match format {
        ManifestSourceFormat::Json => match number_token_range(source, "schema_version"@) {
            Some((a, b)) => Some(source.subrange(a, b)),
            None => None,
        },
        ManifestSourceFormat::Toml => match v {
            RawValue::Number(n) => Some(n.lexeme@),
            _ => None,
        },
    };
    version_of(v is Number, token)
}

/// The problems of the sections lowered before condition mappings are
/// checked, in the order they are reported: the producer fields, the
/// version, types, registries, speakers, conditions and availability
/// reasons. None of them depends on another section.
pub open spec fn leading_problems(
    raw: RawManifest,
    allow: bool,
    source: Seq<char>,
    format: ManifestSourceFormat,
) -> Seq<Problem> {
    producer_metadata_problems(producer_input(raw, allow))
        + version_problems(declared_version(raw.schema_version, source, format))
        + types_problems(raw.types@, raw.types@.len() as int)
        + registries_problems(raw.registries@, raw.registries@.len() as int, allow)
        + speakers_problems(raw.speakers@, raw.speakers@.len() as int)
        + conditions_problems(raw.conditions@, raw.conditions@.len() as int)
        + reasons_problems(raw.availability_reasons@, raw.availability_reasons@.len() as int)
}

proof fn lemma_leading_reported(d: Seq<Seq<Diagnostic>>, p: Seq<Seq<Problem>>)
    requires
        d.len() == 8,
        p.len() == 7,
        forall|i: int| 0 <= i < 7 ==> reported(#[trigger] d[i], d[i + 1], p[i]),
    ensures
        reported(d[0], d[7], p[0] + p[1] + p[2] + p[3] + p[4] + p[5] + p[6]),
{
    assert(reported(d[0], d[1], p[0]));
    assert(reported(d[1], d[2], p[1]));
    lemma_reported_trans(d[0], d[1], d[2], p[0], p[1]);
    assert(reported(d[2], d[3], p[2]));
    lemma_reported_trans(d[0], d[2], d[3], p[0] + p[1], p[2]);
    assert(reported(d[3], d[4], p[3]));
    lemma_reported_trans(d[0], d[3], d[4], p[0] + p[1] + p[2], p[3]);
    assert(reported(d[4], d[5], p[4]));
    lemma_reported_trans(d[0], d[4], d[5], p[0] + p[1] + p[2] + p[3], p[4]);
    assert(reported(d[5], d[6], p[5]));
    lemma_reported_trans(d[0], d[5], d[6], p[0] + p[1] + p[2] + p[3] + p[4], p[5]);
    assert(reported(d[6], d[7], p[6]));
    lemma_reported_trans(d[0], d[6], d[7], p[0] + p[1] + p[2] + p[3] + p[4] + p[5], p[6]);
}

/// Check the declared schema version and report it unless it is one.
fn lower_schema_version(
    file: &str,
    text: &[char],
    source: &str,
    spans: &ManifestSpans,
    diagnostics: &mut Vec<Diagnostic>,
    schema_version: &RawValue,
    format: ManifestSourceFormat,
)
    requires
        text@ == source@,
    ensures
        reported(old(diagnostics)@, final(diagnostics)@, version_problems(declared_version(*schema_version, source@, format))),
{
    let is_number = match schema_version {
        RawValue::Number(_) => true,
        _ => false,
    };
    let token = match format {
        ManifestSourceFormat::Json => match top_level_number_token(text, "schema_version") {
            Some((a, b)) => Some(String::from_str(source.substring_char(a, b))),
            None => None,
        },
        ManifestSourceFormat::Toml => match schema_version {
            RawValue::Number(n) => Some(n.lexeme.clone()),
            _ => None,
        },
    };
    let version = schema_version_from_token(is_number, token);
    let version_span = spans.root_key_span(file, text, "schema_version");
    report_schema_version(diagnostics, version, version_span);
}

/// The type references that conditions, availability reasons, effects,
/// metadata and projection queries make, in the order they are collected,
/// each with the definition that makes it.
pub open spec fn type_refs_of(raw: RawManifest) -> Seq<(Seq<char>, TypeRefView)> {
    conditions_pending(raw.conditions@, raw.conditions@.len() as int)
        + reasons_pending(raw.availability_reasons@, raw.availability_reasons@.len() as int)
        + effects_pending(raw.effects@, raw.effects@.len() as int)
        + metadata_pending(raw.metadata@, raw.metadata@.len() as int)
        + queries_pending(raw.projection_queries@, raw.projection_queries@.len() as int)
}

/// The metadata domain references that metadata domains and metadata
/// definitions make: the referring definition, the domain, and whether it
/// must be flat.
pub open spec fn domain_refs_of(raw: RawManifest) -> Seq<(Seq<char>, Seq<char>, bool)> {
    domains_refs(raw.metadata_domains@, raw.metadata_domains@.len() as int)
        + metadata_domain_refs(raw.metadata@, raw.metadata@.len() as int)
}

/// `t` is the schema the presentation projectors of `s` are lowered against:
/// `s` without its presentation projectors and markup, which come after.
pub open spec fn projector_context(t: ProjectSchema, s: ProjectSchema) -> bool {
    &&& t.schema_version == s.schema_version
    &&& t.types == s.types
    &&& t.registries == s.registries
    &&& t.speakers == s.speakers
    &&& t.conditions == s.conditions
    &&& t.availability_reasons == s.availability_reasons
    &&& t.effects == s.effects
    &&& t.metadata_domains == s.metadata_domains
    &&& t.metadata == s.metadata
    &&& t.projection_queries == s.projection_queries
    &&& t.producer_metadata == s.producer_metadata
    &&& t.presentation_projectors.entry_seq().len() == 0
    &&& t.markup.entry_seq().len() == 0
}

/// The presentation projectors of `s` are the entries `es` lowered against
/// `t`; none of them reported a problem; and every type they refer to is
/// declared in `s`.
pub open spec fn projectors_loaded(t: ProjectSchema, s: ProjectSchema, es: Seq<Named<RawPresentationProjectorDefinition>>) -> bool {
    &&& projectors_problems(t, Set::empty(), es, es.len() as int).len() == 0
    &&& forall|n: Seq<char>| #[trigger] s.presentation_projectors.has(n) <==> exists|i: int|
        0 <= i < es.len() && projector_kept(t, es, i) && es[i].name@ == n
    &&& forall|i: int| 0 <= i < es.len() && #[trigger] projector_kept(t, es, i)
        ==> (s.presentation_projectors.spec_get(es[i].name@) matches Some(d) && projector_lowered(d, t, es[i]))
    &&& forall|i: int| 0 <= i < projectors_pending(t, es, es.len() as int).len() ==> missing_type_target(s,
        (#[trigger] projectors_pending(t, es, es.len() as int)[i]).1) is None
}

/// What a schema loaded from a read manifest holds: version one, declared
/// by a number; the manifest-level producer fields and every section lowered
/// from its entries (of the conditions, whose mappings are checked later,
/// their names; presentation projectors against the schema the sections
/// before them form); every type they refer to
/// declared, and every metadata domain they refer to declared (flat where a
/// flat one is needed); and none of these sections reported a problem.
pub open spec fn loaded_from(raw: RawManifest, allow: bool, s: ProjectSchema) -> bool {
    &&& s.schema_version == 1
    &&& raw.schema_version is Number
    &&& forall|i: int| 0 <= i < type_refs_of(raw).len() ==> missing_type_target(s, (#[trigger] type_refs_of(raw)[i]).1)
        is None
    &&& exists|t: ProjectSchema| projector_context(t, s) && projectors_loaded(t, s, raw.presentation_projectors@)
    &&& forall|i: int| 0 <= i < domain_refs_of(raw).len() ==> {
        let v = #[trigger] domain_refs_of(raw)[i];
        domain_resolves(s, v.1, v.2)
    }
    &&& producer_metadata_problems(producer_input(raw, allow)).len() == 0
    &&& producer_metadata_lowered(s.producer_metadata, producer_input(raw, allow))
    &&& types_problems(raw.types@, raw.types@.len() as int).len() == 0
    &&& speakers_problems(raw.speakers@, raw.speakers@.len() as int).len() == 0
    &&& registries_problems(raw.registries@, raw.registries@.len() as int, allow).len() == 0
    &&& effects_problems(raw.effects@, raw.effects@.len() as int).len() == 0
    &&& markup_problems(raw.markup@, raw.markup@.len() as int).len() == 0
    &&& conditions_problems(raw.conditions@, raw.conditions@.len() as int).len() == 0
    &&& reasons_problems(raw.availability_reasons@, raw.availability_reasons@.len() as int).len() == 0
    &&& domains_problems(raw.metadata_domains@, raw.metadata_domains@.len() as int, allow).len() == 0
    &&& metadata_problems(raw.metadata@, raw.metadata@.len() as int).len() == 0
    &&& queries_problems(raw.projection_queries@, raw.projection_queries@.len() as int).len() == 0
    &&& forall|n: Seq<char>| #[trigger] s.conditions.has(n) <==> exists|i: int|
        0 <= i < raw.conditions@.len() && is_first_named(entry_names(raw.conditions@), i) && raw.conditions@[i].name@ == n
    &&& forall|i: int| 0 <= i < raw.conditions@.len() && #[trigger] is_first_named(entry_names(raw.conditions@), i)
        ==> (s.conditions.spec_get(raw.conditions@[i].name@) matches Some(d)
            && params_lowered(owner_text("condition '"@, raw.conditions@[i].name@), d.params@, raw.conditions@[i].value.params@)
            && return_view(d.returns) == return_of(raw.conditions@[i].value.returns))
    &&& forall|n: Seq<char>| #[trigger] s.availability_reasons.has(n) <==> exists|i: int|
        0 <= i < raw.availability_reasons@.len() && is_first_named(entry_names(raw.availability_reasons@), i)
            && raw.availability_reasons@[i].name@ == n
    &&& forall|i: int| 0 <= i < raw.availability_reasons@.len()
        && #[trigger] is_first_named(entry_names(raw.availability_reasons@), i)
        ==> (s.availability_reasons.spec_get(raw.availability_reasons@[i].name@) matches Some(d)
            && reason_lowered(d, raw.availability_reasons@[i]))
    &&& forall|n: Seq<char>| #[trigger] s.metadata_domains.has(n) <==> exists|i: int|
        0 <= i < raw.metadata_domains@.len() && domain_entry_kept(raw.metadata_domains@, i)
            && raw.metadata_domains@[i].name@ == n
    &&& forall|i: int| 0 <= i < raw.metadata_domains@.len() && #[trigger] domain_entry_kept(raw.metadata_domains@, i)
        ==> (s.metadata_domains.spec_get(raw.metadata_domains@[i].name@) matches Some(d)
            && domain_lowered(d, raw.metadata_domains@[i].value, allow))
    &&& forall|n: Seq<char>| #[trigger] s.metadata.has(n) <==> exists|i: int|
        0 <= i < raw.metadata@.len() && is_first_named(entry_names(raw.metadata@), i) && raw.metadata@[i].name@ == n
    &&& forall|i: int| 0 <= i < raw.metadata@.len() && #[trigger] is_first_named(entry_names(raw.metadata@), i)
        ==> (s.metadata.spec_get(raw.metadata@[i].name@) matches Some(d) && metadata_lowered(d, raw.metadata@[i]))
    &&& forall|n: Seq<char>| #[trigger] s.projection_queries.has(n) <==> exists|i: int|
        0 <= i < raw.projection_queries@.len() && is_first_named(entry_names(raw.projection_queries@), i)
            && raw.projection_queries@[i].name@ == n
    &&& forall|i: int| 0 <= i < raw.projection_queries@.len()
        && #[trigger] is_first_named(entry_names(raw.projection_queries@), i)
        ==> (s.projection_queries.spec_get(raw.projection_queries@[i].name@) matches Some(d)
            && query_lowered(d, raw.projection_queries@[i]))
    &&& forall|n: Seq<char>| #[trigger] s.types.has(n) <==> exists|i: int|
        0 <= i < raw.types@.len() && type_kept(raw.types@, i) && raw.types@[i].name@ == n
    &&& forall|i: int| 0 <= i < raw.types@.len() && #[trigger] type_kept(raw.types@, i)
        ==> (s.types.spec_get(raw.types@[i].name@) matches Some(d)
            && enum_values(d) == nonempty_values(texts(raw.types@[i].value.values@)))
    &&& forall|n: Seq<char>| #[trigger] s.speakers.has(n) <==> exists|i: int|
        0 <= i < raw.speakers@.len() && is_first_named(entry_names(raw.speakers@), i) && raw.speakers@[i].name@ == n
    &&& forall|i: int| 0 <= i < raw.speakers@.len() && #[trigger] is_first_named(entry_names(raw.speakers@), i)
        ==> (s.speakers.spec_get(raw.speakers@[i].name@) matches Some(d)
            && opt_text(d.display_name) == opt_text(raw.speakers@[i].value.display_name))
    &&& forall|n: Seq<char>| #[trigger] s.registries.has(n) <==> exists|i: int|
        0 <= i < raw.registries@.len() && is_first_named(entry_names(raw.registries@), i) && raw.registries@[i].name@ == n
    &&& forall|i: int| 0 <= i < raw.registries@.len() && #[trigger] is_first_named(entry_names(raw.registries@), i)
        ==> (s.registries.spec_get(raw.registries@[i].name@) matches Some(d)
            && registry_lowered(d, raw.registries@[i].value, allow))
    &&& forall|n: Seq<char>| #[trigger] s.effects.has(n) <==> exists|i: int|
        0 <= i < raw.effects@.len() && is_first_named(entry_names(raw.effects@), i) && raw.effects@[i].name@ == n
    &&& forall|i: int| 0 <= i < raw.effects@.len() && #[trigger] is_first_named(entry_names(raw.effects@), i)
        ==> (s.effects.spec_get(raw.effects@[i].name@) matches Some(d) && effect_lowered(d, raw.effects@[i]))
    &&& forall|n: Seq<char>| #[trigger] s.markup.has(n) <==> exists|i: int|
        0 <= i < raw.markup@.len() && is_first_named(entry_names(raw.markup@), i) && raw.markup@[i].name@ == n
    &&& forall|i: int| 0 <= i < raw.markup@.len() && #[trigger] is_first_named(entry_names(raw.markup@), i)
        ==> s.markup.spec_get(raw.markup@[i].name@) == Some(markup_of(raw.markup@[i].value))
}

/// Every markup tag of `s` that `raw` declares carries the flags written for
/// it; a tag that does not say whether it allows nesting allows it.
pub open spec fn markup_as_written(raw: RawManifest, s: ProjectSchema) -> bool {
    forall|i: int| 0 <= i < raw.markup@.len() && #[trigger] is_first_named(entry_names(raw.markup@), i) ==> (
        s.markup.spec_get(raw.markup@[i].name@) matches Some(m) && {
            &&& m.requires_closing == raw.markup@[i].value.requires_closing
            &&& m.translatable == raw.markup@[i].value.translatable
            &&& (raw.markup@[i].value.allows_nesting is None ==> m.allows_nesting == true)
            &&& (raw.markup@[i].value.allows_nesting matches Some(b) ==> m.allows_nesting == b)
        })
}

/// A loaded schema keeps each markup tag's flags as written, and nesting is
/// allowed wherever the manifest leaves it unsaid.
pub proof fn lemma_loaded_markup(raw: RawManifest, allow: bool, s: ProjectSchema)
    requires
        loaded_from(raw, allow, s),
    ensures
        markup_as_written(raw, s),
{
}

proof fn lemma_pending_views_added(a: Seq<PendingTypeReference>, b: Seq<PendingTypeReference>, vs: Seq<(Seq<char>, TypeRefView)>)
    requires
        pending_added(a, b, vs),
    ensures
        pending_views(b) == pending_views(a) + vs,
{
    assert(b =~= b.subrange(0, a.len() as int) + b.subrange(a.len() as int, b.len() as int));
    assert(pending_views(b) =~= pending_views(b.subrange(0, a.len() as int)) + pending_views(
        b.subrange(a.len() as int, b.len() as int),
    ));
}

proof fn lemma_type_refs_clean(schema: ProjectSchema, ps: Seq<PendingTypeReference>)
    requires
        type_refs_diagnostics(schema, ps).len() == 0,
    ensures
        forall|i: int| 0 <= i < ps.len() ==> missing_type_target(schema, #[trigger] ps[i].type_ref@) is None,
    decreases ps.len(),
{
    if ps.len() > 0 {
        lemma_type_refs_clean(schema, ps.drop_last());
        assert forall|i: int| 0 <= i < ps.len() implies missing_type_target(schema, #[trigger] ps[i].type_ref@) is None by {
            if i < ps.len() - 1 {
                assert(ps[i] == ps.drop_last()[i]);
            }
        }
    }
}

/// The metadata domain `domain` is declared, and flat where `flat` asks for it.
pub open spec fn domain_resolves(s: ProjectSchema, domain: Seq<char>, flat: bool) -> bool {
    match s.metadata_domains.spec_get(domain) {
        Some(MetadataDomainDefinition::Flat(_)) => true,
        Some(MetadataDomainDefinition::Contextual(_)) => !flat,
        None => false,
    }
}

proof fn lemma_domain_refs_clean(schema: ProjectSchema, ps: Seq<PendingDomainReference>)
    requires
        domain_refs_diagnostics(schema, ps).len() == 0,
    ensures
        forall|i: int| 0 <= i < ps.len() ==> domain_resolves(schema, (#[trigger] ps[i]).domain@, ps[i].require_flat),
    decreases ps.len(),
{
    if ps.len() > 0 {
        lemma_domain_refs_clean(schema, ps.drop_last());
        assert forall|i: int| 0 <= i < ps.len() implies domain_resolves(schema, (#[trigger] ps[i]).domain@, ps[i].require_flat) by {
            if i < ps.len() - 1 {
                assert(ps[i] == ps.drop_last()[i]);
            }
        }
    }
}

/// `s` holds the producer fields and the sections before condition mappings
/// lowered from their entries, and nothing in the sections after them.
pub open spec fn leading_stage(
    input: ProducerMetadataInput,
    types: Seq<Named<RawTypeDefinition>>,
    registries: Seq<Named<RawRegistryDefinition>>,
    speakers: Seq<Named<RawSpeakerDefinition>>,
    conditions: Seq<Named<RawConditionDefinition>>,
    availability_reasons: Seq<Named<RawAvailabilityReasonDefinition>>,
    s: ProjectSchema,
) -> bool {
    &&& (s.schema_version == 1)
    &&& (producer_metadata_lowered(s.producer_metadata, input))
    &&& (forall|n: Seq<char>| #[trigger] s.types.has(n) <==> exists|i: int|
                0 <= i < types.len() && type_kept(types, i) && types[i].name@ == n)
    &&& (forall|i: int| 0 <= i < types.len() && #[trigger] type_kept(types, i)
                ==> (s.types.spec_get(types[i].name@) matches Some(d)
                    && enum_values(d) == nonempty_values(texts(types[i].value.values@))))
    &&& (forall|n: Seq<char>| #[trigger] s.registries.has(n) <==> exists|i: int|
                0 <= i < registries.len() && is_first_named(entry_names(registries), i) && registries[i].name@ == n)
    &&& (forall|i: int| 0 <= i < registries.len() && #[trigger] is_first_named(entry_names(registries), i)
                ==> (s.registries.spec_get(registries[i].name@) matches Some(d)
                    && registry_lowered(d, registries[i].value, input.allow_duplicate_fingerprints)))
    &&& (forall|n: Seq<char>| #[trigger] s.speakers.has(n) <==> exists|i: int|
                0 <= i < speakers.len() && is_first_named(entry_names(speakers), i) && speakers[i].name@ == n)
    &&& (forall|i: int| 0 <= i < speakers.len() && #[trigger] is_first_named(entry_names(speakers), i)
                ==> (s.speakers.spec_get(speakers[i].name@) matches Some(d)
                    && opt_text(d.display_name) == opt_text(speakers[i].value.display_name)))
    &&& (forall|n: Seq<char>| #[trigger] s.conditions.has(n) <==> exists|i: int|
                0 <= i < conditions.len() && is_first_named(entry_names(conditions), i) && conditions[i].name@ == n)
    &&& (forall|i: int| 0 <= i < conditions.len() && #[trigger] is_first_named(entry_names(conditions), i)
                ==> (s.conditions.spec_get(conditions[i].name@) matches Some(d) && condition_lowered(d, conditions[i])))
    &&& (forall|n: Seq<char>| #[trigger] s.availability_reasons.has(n) <==> exists|i: int|
                0 <= i < availability_reasons.len() && is_first_named(entry_names(availability_reasons), i)
                    && availability_reasons[i].name@ == n)
    &&& (forall|i: int| 0 <= i < availability_reasons.len()
                && #[trigger] is_first_named(entry_names(availability_reasons), i)
                ==> (s.availability_reasons.spec_get(availability_reasons[i].name@) matches Some(d)
                    && reason_lowered(d, availability_reasons[i])))
    &&& (s.effects.entry_seq().len() == 0)
    &&& (s.metadata_domains.entry_seq().len() == 0)
    &&& (s.metadata.entry_seq().len() == 0)
    &&& (s.projection_queries.entry_seq().len() == 0)
    &&& (s.presentation_projectors.entry_seq().len() == 0)
    &&& (s.markup.entry_seq().len() == 0)
}

/// Lower the producer fields, the version and the sections before condition
/// mappings into a new schema; the other sections stay empty.
#[verifier::spinoff_prover]
#[verifier::rlimit(60)]
fn lower_leading_sections(
    file: &str,
    text: &[char],
    source: &str,
    spans: &mut ManifestSpans,
    diagnostics: &mut Vec<Diagnostic>,
    pending_type_refs: &mut Vec<PendingTypeReference>,
    pending_mappings: &mut Vec<PendingConditionAvailabilityReasonMapping>,
    schema_version: &RawValue,
    input: ProducerMetadataInput,
    types: Vec<Named<RawTypeDefinition>>,
    registries: Vec<Named<RawRegistryDefinition>>,
    speakers: Vec<Named<RawSpeakerDefinition>>,
    conditions: Vec<Named<RawConditionDefinition>>,
    availability_reasons: Vec<Named<RawAvailabilityReasonDefinition>>,
    format: ManifestSourceFormat,
) -> (s: ProjectSchema)
    requires
        text@ == source@,
        !blank_producer(input.producer),
    ensures
        reported(old(diagnostics)@, final(diagnostics)@, producer_metadata_problems(input)
            + version_problems(declared_version(*schema_version, source@, format))
            + types_problems(types@, types@.len() as int)
            + registries_problems(registries@, registries@.len() as int, input.allow_duplicate_fingerprints)
            + speakers_problems(speakers@, speakers@.len() as int)
            + conditions_problems(conditions@, conditions@.len() as int)
            + reasons_problems(availability_reasons@, availability_reasons@.len() as int)),
        leading_stage(input, types@, registries@, speakers@, conditions@, availability_reasons@, s),
        pending_views(final(pending_type_refs)@) == pending_views(old(pending_type_refs)@)
            + conditions_pending(conditions@, conditions@.len() as int)
            + reasons_pending(availability_reasons@, availability_reasons@.len() as int),
        mappings_view(final(pending_mappings)@) == mappings_view(old(pending_mappings)@)
            + conditions_mappings(conditions@, conditions@.len() as int),
{
    let ghost d0 = diagnostics@;
    let ghost inp = input;
    let allow = input.allow_duplicate_fingerprints;
    let mut schema = ProjectSchema::empty_v1();
    schema.producer_metadata = lower_producer_metadata(file, text, spans, diagnostics, input);
    let ghost d1 = diagnostics@;
    lower_schema_version(file, text, source, spans, diagnostics, schema_version, format);
    let ghost d2 = diagnostics@;
    spans.enter_section(text, "types");
    lower_types(file, text, spans, types, &mut schema, diagnostics);
    let ghost d3 = diagnostics@;
    spans.enter_section(text, "registries");
    lower_registries(file, text, spans, registries, &mut schema, diagnostics, allow);
    let ghost d4 = diagnostics@;
    spans.enter_section(text, "speakers");
    lower_speakers(file, text, spans, speakers, &mut schema, diagnostics);
    let ghost d5 = diagnostics@;
    spans.enter_section(text, "conditions");
    let ghost q0 = pending_type_refs@;
    lower_conditions(file, text, spans, conditions, &mut schema, diagnostics, pending_type_refs, pending_mappings);
    let ghost d6 = diagnostics@;
    let ghost q1 = pending_type_refs@;
    spans.enter_section(text, "availability_reasons");
    lower_availability_reasons(file, text, spans, availability_reasons, &mut schema, diagnostics, pending_type_refs);
    proof {
        lemma_pending_views_added(q0, q1, conditions_pending(conditions@, conditions@.len() as int));
        lemma_pending_views_added(q1, pending_type_refs@, reasons_pending(availability_reasons@, availability_reasons@.len() as int));
        lemma_leading_reported(
            seq![d0, d1, d2, d3, d4, d5, d6, diagnostics@],
            seq![
                producer_metadata_problems(inp),
                version_problems(declared_version(*schema_version, source@, format)),
                types_problems(types@, types@.len() as int),
                registries_problems(registries@, registries@.len() as int, allow),
                speakers_problems(speakers@, speakers@.len() as int),
                conditions_problems(conditions@, conditions@.len() as int),
                reasons_problems(availability_reasons@, availability_reasons@.len() as int),
            ],
        );
    }
    schema
}

/// `tm` is `t` with its conditions' availability reason mappings `maps` checked.
pub open spec fn mapped_stage(
    t: ProjectSchema,
    tm: ProjectSchema,
    format: ManifestSourceFormat,
    maps: Seq<(Seq<char>, RawConditionAvailabilityReasonMapping)>,
) -> bool {
    &&& same_but_conditions(t, tm)
    &&& tm.conditions.keys() == t.conditions.keys()
    &&& forall|k: Seq<char>| #[trigger] t.conditions.has(k) ==> condition_mapped(tm.conditions.spec_get(k)->0,
        t.conditions.spec_get(k)->0, k, mapping_results(t, format, maps, maps.len() as int))
}

/// `tp` is `tm` with effects, metadata domains, metadata and projection
/// queries lowered from their entries.
pub open spec fn middle_stage(
    tm: ProjectSchema,
    tp: ProjectSchema,
    effects: Seq<Named<RawEffectDefinition>>,
    metadata_domains: Seq<Named<RawMetadataDomainDefinition>>,
    metadata: Seq<Named<RawMetadataDefinition>>,
    projection_queries: Seq<Named<RawProjectionQueryFunctionDefinition>>,
    allow: bool,
) -> bool {
    &&& tp.schema_version == tm.schema_version
    &&& tp.types == tm.types
    &&& tp.registries == tm.registries
    &&& tp.speakers == tm.speakers
    &&& tp.conditions == tm.conditions
    &&& tp.availability_reasons == tm.availability_reasons
    &&& tp.presentation_projectors == tm.presentation_projectors
    &&& tp.markup == tm.markup
    &&& tp.producer_metadata == tm.producer_metadata
    &&& forall|n: Seq<char>| #[trigger] tp.effects.has(n) <==> exists|i: int|
        0 <= i < effects.len() && is_first_named(entry_names(effects), i) && effects[i].name@ == n
    &&& forall|i: int| 0 <= i < effects.len() && #[trigger] is_first_named(entry_names(effects), i)
        ==> (tp.effects.spec_get(effects[i].name@) matches Some(d) && effect_lowered(d, effects[i]))
    &&& forall|n: Seq<char>| #[trigger] tp.metadata_domains.has(n) <==> exists|i: int|
        0 <= i < metadata_domains.len() && domain_entry_kept(metadata_domains, i) && metadata_domains[i].name@ == n
    &&& forall|i: int| 0 <= i < metadata_domains.len() && #[trigger] domain_entry_kept(metadata_domains, i)
        ==> (tp.metadata_domains.spec_get(metadata_domains[i].name@) matches Some(d)
            && domain_lowered(d, metadata_domains[i].value, allow))
    &&& forall|n: Seq<char>| #[trigger] tp.metadata.has(n) <==> exists|i: int|
        0 <= i < metadata.len() && is_first_named(entry_names(metadata), i) && metadata[i].name@ == n
    &&& forall|i: int| 0 <= i < metadata.len() && #[trigger] is_first_named(entry_names(metadata), i)
        ==> (tp.metadata.spec_get(metadata[i].name@) matches Some(d) && metadata_lowered(d, metadata[i]))
    &&& forall|n: Seq<char>| #[trigger] tp.projection_queries.has(n) <==> exists|i: int|
        0 <= i < projection_queries.len() && is_first_named(entry_names(projection_queries), i)
            && projection_queries[i].name@ == n
    &&& forall|i: int| 0 <= i < projection_queries.len() && #[trigger] is_first_named(entry_names(projection_queries), i)
        ==> (tp.projection_queries.spec_get(projection_queries[i].name@) matches Some(d)
            && query_lowered(d, projection_queries[i]))
}

/// `s` is `tp` with its presentation projectors lowered against `tp` and its
/// markup lowered.
pub open spec fn final_stage(
    tp: ProjectSchema,
    s: ProjectSchema,
    presentation_projectors: Seq<Named<RawPresentationProjectorDefinition>>,
    markup: Seq<Named<RawMarkupDefinition>>,
) -> bool {
    &&& projector_context(tp, s)
    &&& forall|n: Seq<char>| #[trigger] s.presentation_projectors.has(n) <==> exists|i: int|
        0 <= i < presentation_projectors.len() && projector_kept(tp, presentation_projectors, i)
            && presentation_projectors[i].name@ == n
    &&& forall|i: int| 0 <= i < presentation_projectors.len() && #[trigger] projector_kept(tp, presentation_projectors, i)
        ==> (s.presentation_projectors.spec_get(presentation_projectors[i].name@) matches Some(d)
            && projector_lowered(d, tp, presentation_projectors[i]))
    &&& forall|n: Seq<char>| #[trigger] s.markup.has(n) <==> exists|i: int|
        0 <= i < markup.len() && is_first_named(entry_names(markup), i) && markup[i].name@ == n
    &&& forall|i: int| 0 <= i < markup.len() && #[trigger] is_first_named(entry_names(markup), i)
        ==> s.markup.spec_get(markup[i].name@) == Some(markup_of(markup[i].value))
}

/// The problems reported after the leading sections, in order: condition
/// mappings (checked against `t`), effects, metadata domains, metadata,
/// projection queries, presentation projectors (lowered against `tp`),
/// markup, then the type and metadata domain references, checked against
/// the finished schema `s`. `refs_in` are the type references the leading
/// sections made.
pub open spec fn trailing_problems(
    t: ProjectSchema,
    tp: ProjectSchema,
    s: ProjectSchema,
    maps: Seq<(Seq<char>, RawConditionAvailabilityReasonMapping)>,
    refs_in: Seq<(Seq<char>, TypeRefView)>,
    effects: Seq<Named<RawEffectDefinition>>,
    metadata_domains: Seq<Named<RawMetadataDomainDefinition>>,
    metadata: Seq<Named<RawMetadataDefinition>>,
    projection_queries: Seq<Named<RawProjectionQueryFunctionDefinition>>,
    presentation_projectors: Seq<Named<RawPresentationProjectorDefinition>>,
    markup: Seq<Named<RawMarkupDefinition>>,
    allow: bool,
    format: ManifestSourceFormat,
) -> Seq<Problem> {
    mappings_problems(t, format, maps, maps.len() as int)
        + effects_problems(effects, effects.len() as int)
        + domains_problems(metadata_domains, metadata_domains.len() as int, allow)
        + metadata_problems(metadata, metadata.len() as int)
        + queries_problems(projection_queries, projection_queries.len() as int)
        + projectors_problems(tp, Set::empty(), presentation_projectors, presentation_projectors.len() as int)
        + markup_problems(markup, markup.len() as int)
        + type_ref_problems(s, refs_in + effects_pending(effects, effects.len() as int)
            + metadata_pending(metadata, metadata.len() as int)
            + queries_pending(projection_queries, projection_queries.len() as int)
            + projectors_pending(tp, presentation_projectors, presentation_projectors.len() as int))
        + domain_ref_problems(s, domains_refs(metadata_domains, metadata_domains.len() as int)
            + metadata_domain_refs(metadata, metadata.len() as int))
}

proof fn lemma_chain9(d: Seq<Seq<Diagnostic>>, p: Seq<Seq<Problem>>)
    requires
        d.len() == 10,
        p.len() == 9,
        forall|i: int| 0 <= i < 9 ==> reported(#[trigger] d[i], d[i + 1], p[i]),
    ensures
        reported(d[0], d[9], p[0] + p[1] + p[2] + p[3] + p[4] + p[5] + p[6] + p[7] + p[8]),
{
    assert(reported(d[0], d[1], p[0]));
    assert(reported(d[1], d[2], p[1]));
    lemma_reported_trans(d[0], d[1], d[2], p[0], p[1]);
    assert(reported(d[2], d[3], p[2]));
    lemma_reported_trans(d[0], d[2], d[3], p[0] + p[1], p[2]);
    assert(reported(d[3], d[4], p[3]));
    lemma_reported_trans(d[0], d[3], d[4], p[0] + p[1] + p[2], p[3]);
    assert(reported(d[4], d[5], p[4]));
    lemma_reported_trans(d[0], d[4], d[5], p[0] + p[1] + p[2] + p[3], p[4]);
    assert(reported(d[5], d[6], p[5]));
    lemma_reported_trans(d[0], d[5], d[6], p[0] + p[1] + p[2] + p[3] + p[4], p[5]);
    assert(reported(d[6], d[7], p[6]));
    lemma_reported_trans(d[0], d[6], d[7], p[0] + p[1] + p[2] + p[3] + p[4] + p[5], p[6]);
    assert(reported(d[7], d[8], p[7]));
    lemma_reported_trans(d[0], d[7], d[8], p[0] + p[1] + p[2] + p[3] + p[4] + p[5] + p[6], p[7]);
    assert(reported(d[8], d[9], p[8]));
    lemma_reported_trans(d[0], d[8], d[9], p[0] + p[1] + p[2] + p[3] + p[4] + p[5] + p[6] + p[7], p[8]);
}

/// What checking the condition mappings, lowering the remaining sections and
/// checking references does to a schema `t`, giving `s`, while the
/// diagnostics go from `d0` to `d1`.
#[verifier::opaque]
spec fn trailing_done(
    t: ProjectSchema,
    s: ProjectSchema,
    d0: Seq<Diagnostic>,
    d1: Seq<Diagnostic>,
    maps: Seq<(Seq<char>, RawConditionAvailabilityReasonMapping)>,
    refs_in: Seq<(Seq<char>, TypeRefView)>,
    effects: Seq<Named<RawEffectDefinition>>,
    metadata_domains: Seq<Named<RawMetadataDomainDefinition>>,
    metadata: Seq<Named<RawMetadataDefinition>>,
    projection_queries: Seq<Named<RawProjectionQueryFunctionDefinition>>,
    presentation_projectors: Seq<Named<RawPresentationProjectorDefinition>>,
    markup: Seq<Named<RawMarkupDefinition>>,
    allow: bool,
    format: ManifestSourceFormat,
) -> bool {
    &&& (exists|tm: ProjectSchema, tp: ProjectSchema| {
                &&& mapped_stage(t, tm, format, maps)
                &&& middle_stage(tm, tp, effects, metadata_domains, metadata, projection_queries, allow)
                &&& final_stage(tp, s, presentation_projectors, markup)
                &&& reported(d0, d1, trailing_problems(t, tp, s,
                    maps, refs_in, effects, metadata_domains, metadata,
                    projection_queries, presentation_projectors, markup, allow, format))
    })
    &&& (d1.len() == d0.len() ==> exists|t: ProjectSchema| projector_context(t, s)
                && projectors_loaded(t, s, presentation_projectors))
    &&& (extends(d0, d1))
    &&& (d1.len() == d0.len() ==> {
                &&& effects_problems(effects, effects.len() as int).len() == 0
                &&& domains_problems(metadata_domains, metadata_domains.len() as int, allow).len() == 0
                &&& metadata_problems(metadata, metadata.len() as int).len() == 0
                &&& queries_problems(projection_queries, projection_queries.len() as int).len() == 0
                &&& markup_problems(markup, markup.len() as int).len() == 0
    })
    &&& (d1.len() == d0.len() ==> forall|i: int|
                0 <= i < (refs_in + effects_pending(effects, effects.len() as int)
                    + metadata_pending(metadata, metadata.len() as int)
                    + queries_pending(projection_queries, projection_queries.len() as int)).len()
                ==> missing_type_target(s, (#[trigger] (refs_in
                    + effects_pending(effects, effects.len() as int)
                    + metadata_pending(metadata, metadata.len() as int)
                    + queries_pending(projection_queries, projection_queries.len() as int))[i]).1) is None)
    &&& (d1.len() == d0.len() ==> forall|i: int|
                0 <= i < (domains_refs(metadata_domains, metadata_domains.len() as int) + metadata_domain_refs(metadata,
                    metadata.len() as int)).len() ==> {
                    let v = #[trigger] (domains_refs(metadata_domains, metadata_domains.len() as int)
                        + metadata_domain_refs(metadata, metadata.len() as int))[i];
                    domain_resolves(s, v.1, v.2)
                })
    &&& (s.schema_version == t.schema_version)
    &&& (s.producer_metadata == t.producer_metadata)
    &&& (s.types == t.types)
    &&& (s.registries == t.registries)
    &&& (s.speakers == t.speakers)
    &&& (s.availability_reasons == t.availability_reasons)
    &&& (forall|n: Seq<char>| #[trigger] s.conditions.has(n) <==> t.conditions.has(n))
    &&& (forall|n: Seq<char>| #[trigger] s.effects.has(n) <==> exists|i: int|
                0 <= i < effects.len() && is_first_named(entry_names(effects), i) && effects[i].name@ == n)
    &&& (forall|i: int| 0 <= i < effects.len() && #[trigger] is_first_named(entry_names(effects), i)
                ==> (s.effects.spec_get(effects[i].name@) matches Some(d) && effect_lowered(d, effects[i])))
    &&& (forall|n: Seq<char>| #[trigger] s.metadata_domains.has(n) <==> exists|i: int|
                0 <= i < metadata_domains.len() && domain_entry_kept(metadata_domains, i) && metadata_domains[i].name@ == n)
    &&& (forall|i: int| 0 <= i < metadata_domains.len() && #[trigger] domain_entry_kept(metadata_domains, i)
                ==> (s.metadata_domains.spec_get(metadata_domains[i].name@) matches Some(d)
                    && domain_lowered(d, metadata_domains[i].value, allow)))
    &&& (forall|n: Seq<char>| #[trigger] s.metadata.has(n) <==> exists|i: int|
                0 <= i < metadata.len() && is_first_named(entry_names(metadata), i) && metadata[i].name@ == n)
    &&& (forall|i: int| 0 <= i < metadata.len() && #[trigger] is_first_named(entry_names(metadata), i)
                ==> (s.metadata.spec_get(metadata[i].name@) matches Some(d) && metadata_lowered(d, metadata[i])))
    &&& (forall|n: Seq<char>| #[trigger] s.projection_queries.has(n) <==> exists|i: int|
                0 <= i < projection_queries.len() && is_first_named(entry_names(projection_queries), i)
                    && projection_queries[i].name@ == n)
    &&& (forall|i: int| 0 <= i < projection_queries.len() && #[trigger] is_first_named(entry_names(projection_queries), i)
                ==> (s.projection_queries.spec_get(projection_queries[i].name@) matches Some(d)
                    && query_lowered(d, projection_queries[i])))
    &&& (forall|n: Seq<char>| #[trigger] s.markup.has(n) <==> exists|i: int|
                0 <= i < markup.len() && is_first_named(entry_names(markup), i) && markup[i].name@ == n)
    &&& (forall|i: int| 0 <= i < markup.len() && #[trigger] is_first_named(entry_names(markup), i)
                ==> s.markup.spec_get(markup[i].name@) == Some(markup_of(markup[i].value)))
}

/// Check condition mappings, lower the remaining sections into `schema` and
/// validate the type and domain references that were collected.
#[verifier::spinoff_prover]
#[verifier::rlimit(60)]
fn lower_trailing_sections(
    file: &str,
    text: &[char],
    spans: &mut ManifestSpans,
    schema: &mut ProjectSchema,
    diagnostics: &mut Vec<Diagnostic>,
    pending_type_refs: Vec<PendingTypeReference>,
    pending_mappings: Vec<PendingConditionAvailabilityReasonMapping>,
    effects: Vec<Named<RawEffectDefinition>>,
    metadata_domains: Vec<Named<RawMetadataDomainDefinition>>,
    metadata: Vec<Named<RawMetadataDefinition>>,
    projection_queries: Vec<Named<RawProjectionQueryFunctionDefinition>>,
    presentation_projectors: Vec<Named<RawPresentationProjectorDefinition>>,
    markup: Vec<Named<RawMarkupDefinition>>,
    allow: bool,
    format: ManifestSourceFormat,
)
    requires
        old(schema).effects.entry_seq().len() == 0,
        old(schema).metadata_domains.entry_seq().len() == 0,
        old(schema).metadata.entry_seq().len() == 0,
        old(schema).projection_queries.entry_seq().len() == 0,
        old(schema).presentation_projectors.entry_seq().len() == 0,
        old(schema).markup.entry_seq().len() == 0,
    ensures
        trailing_done(*old(schema), *final(schema), old(diagnostics)@, final(diagnostics)@, mappings_view(pending_mappings@),
            pending_views(pending_type_refs@), effects@, metadata_domains@, metadata@, projection_queries@,
            presentation_projectors@, markup@, allow, format),
{
    let ghost pending_in = pending_type_refs@;
    let mut pending_type_refs = pending_type_refs;
    let mut pending_domain_refs: Vec<PendingDomainReference> = Vec::new();
    let ghost s0 = *schema;
    let ghost e0 = diagnostics@;
    let ghost maps = mappings_view(pending_mappings@);
    spans.enter_section(text, "conditions");
    validate_condition_availability_reason_mappings(file, text, spans, pending_mappings, schema, diagnostics, format);
    let ghost e1 = diagnostics@;
    let ghost tm = *schema;
    let ghost conditions_map = schema.conditions;
    spans.enter_section(text, "effects");
    let ghost q0 = pending_type_refs@;
    lower_effects(file, text, spans, effects, schema, diagnostics, &mut pending_type_refs);
    let ghost e2 = diagnostics@;
    let ghost q1 = pending_type_refs@;
    spans.enter_section(text, "metadata_domains");
    lower_metadata_domains(file, text, spans, metadata_domains, schema, diagnostics, &mut pending_domain_refs, allow);
    let ghost e3 = diagnostics@;
    let ghost r1 = pending_domain_refs@;
    spans.enter_section(text, "metadata");
    lower_metadata(file, text, spans, metadata, schema, diagnostics, &mut pending_type_refs, &mut pending_domain_refs);
    let ghost e4 = diagnostics@;
    let ghost q2 = pending_type_refs@;
    spans.enter_section(text, "projection_queries");
    lower_projection_queries(file, text, spans, projection_queries, schema, diagnostics, &mut pending_type_refs);
    let ghost e5 = diagnostics@;
    let ghost q3 = pending_type_refs@;
    let ghost s5 = *schema;
    spans.enter_section(text, "presentation_projectors");
    lower_presentation_projectors(file, text, spans, presentation_projectors, schema, diagnostics, &mut pending_type_refs);
    let ghost e6 = diagnostics@;
    let ghost q4 = pending_type_refs@;
    let ghost s6 = *schema;
    spans.enter_section(text, "markup");
    lower_markup(file, text, spans, markup, schema, diagnostics);
    let ghost e7 = diagnostics@;
    validate_type_references(schema, &pending_type_refs, diagnostics);
    let ghost e8 = diagnostics@;
    validate_domain_references(schema, &pending_domain_refs, diagnostics);
    proof {
        let pp = projectors_pending(s5, presentation_projectors@, presentation_projectors@.len() as int);
        let refs_all = pending_views(pending_in) + effects_pending(effects@, effects@.len() as int)
            + metadata_pending(metadata@, metadata@.len() as int)
            + queries_pending(projection_queries@, projection_queries@.len() as int) + pp;
        lemma_pending_views_added(q0, q1, effects_pending(effects@, effects@.len() as int));
        lemma_pending_views_added(q1, q2, metadata_pending(metadata@, metadata@.len() as int));
        lemma_pending_views_added(q2, q3, queries_pending(projection_queries@, projection_queries@.len() as int));
        lemma_pending_views_added(q3, q4, pp);
        assert(pending_views(q4) == refs_all);
        lemma_type_refs_reported(e7, e8, *schema, q4);
        lemma_domain_refs_reported(e8, diagnostics@, *schema, pending_domain_refs@);
        assert(domain_refs_view(Seq::<PendingDomainReference>::empty()) =~= Seq::empty());
        assert(domain_refs_view(pending_domain_refs@) =~= domains_refs(metadata_domains@, metadata_domains@.len() as int)
            + metadata_domain_refs(metadata@, metadata@.len() as int));
        lemma_chain9(
            seq![e0, e1, e2, e3, e4, e5, e6, e7, e8, diagnostics@],
            seq![
                mappings_problems(s0, format, maps, maps.len() as int),
                effects_problems(effects@, effects@.len() as int),
                domains_problems(metadata_domains@, metadata_domains@.len() as int, allow),
                metadata_problems(metadata@, metadata@.len() as int),
                queries_problems(projection_queries@, projection_queries@.len() as int),
                projectors_problems(s5, Set::empty(), presentation_projectors@, presentation_projectors@.len() as int),
                markup_problems(markup@, markup@.len() as int),
                type_ref_problems(*schema, refs_all),
                domain_ref_problems(*schema, domains_refs(metadata_domains@, metadata_domains@.len() as int)
                    + metadata_domain_refs(metadata@, metadata@.len() as int)),
            ],
        );
        assert(mapped_stage(s0, tm, format, maps));
        assert forall|n: Seq<char>| #[trigger] s5.presentation_projectors.has(n) implies false by {
            assert(s5.presentation_projectors.keys().len() == 0);
        }
        assert(middle_stage(tm, s5, effects@, metadata_domains@, metadata@, projection_queries@, allow));
        assert(final_stage(s5, *schema, presentation_projectors@, markup@));
    }
    proof {
        lemma_extends_trans(e0, e1, e2);
        lemma_extends_trans(e0, e2, e3);
        lemma_extends_trans(e0, e3, e4);
        lemma_extends_trans(e0, e4, e5);
        lemma_extends_trans(e0, e5, e6);
        lemma_extends_trans(e0, e6, e7);
        lemma_extends_trans(e0, e7, e8);
        lemma_extends_trans(e0, e8, diagnostics@);
        assert forall|n: Seq<char>| #[trigger] schema.conditions.has(n) <==> s0.conditions.has(n) by {
            assert(schema.conditions.has(n) == conditions_map.has(n));
        }
        let refs = pending_views(pending_in) + effects_pending(effects@, effects@.len() as int)
            + metadata_pending(metadata@, metadata@.len() as int)
            + queries_pending(projection_queries@, projection_queries@.len() as int);
        lemma_pending_views_added(q0, q1, effects_pending(effects@, effects@.len() as int));
        lemma_pending_views_added(q1, q2, metadata_pending(metadata@, metadata@.len() as int));
        lemma_pending_views_added(q2, q3, queries_pending(projection_queries@, projection_queries@.len() as int));
        lemma_pending_views_added(q3, q4, projectors_pending(s5, presentation_projectors@, presentation_projectors@.len() as int));
        assert(pending_views(q4) == refs + projectors_pending(s5, presentation_projectors@, presentation_projectors@.len() as int));
        let drefs = domains_refs(metadata_domains@, metadata_domains@.len() as int) + metadata_domain_refs(metadata@,
            metadata@.len() as int);
        assert(domain_refs_view(Seq::<PendingDomainReference>::empty()) =~= Seq::empty());
        assert(domain_refs_view(pending_domain_refs@) =~= drefs);
        if diagnostics@.len() == e0.len() {
            assert(diagnostics@.len() == e8.len());
            lemma_domain_refs_clean(*schema, pending_domain_refs@);
            assert forall|i: int| 0 <= i < drefs.len() implies ({
                let v = #[trigger] drefs[i];
                domain_resolves(*schema, v.1, v.2)
            }) by {
                assert(domain_refs_view(pending_domain_refs@)[i] == drefs[i]);
                assert(domain_refs_view(pending_domain_refs@)[i] == (pending_domain_refs@[i].owner@,
                    pending_domain_refs@[i].domain@, pending_domain_refs@[i].require_flat));
            }
            assert(e8.len() == e7.len());
            lemma_type_refs_clean(*schema, q4);
            let pp = projectors_pending(s5, presentation_projectors@, presentation_projectors@.len() as int);
            assert forall|i: int| 0 <= i < pp.len() implies missing_type_target(*schema, (#[trigger] pp[i]).1) is None by {
                assert(pending_views(q4)[refs.len() + i] == pp[i]);
                assert(pending_views(q4)[refs.len() + i] == (q4[refs.len() + i].owner@, q4[refs.len() + i].type_ref@));
            }
            assert(e6.len() == e5.len());
            assert(projector_context(s5, *schema));
            assert forall|n: Seq<char>| #[trigger] s5.presentation_projectors.has(n) implies false by {
                assert(s5.presentation_projectors.keys().len() == 0);
            }
            assert(projectors_loaded(s5, *schema, presentation_projectors@));
            assert forall|i: int| 0 <= i < refs.len() implies missing_type_target(*schema, (#[trigger] refs[i]).1) is None by {
                assert(pending_views(q4)[i] == refs[i]);
                assert(pending_views(q4)[i] == (q4[i].owner@, q4[i].type_ref@));
            }
        }
    }
    proof {
        reveal(trailing_done);
    }
}

/// The schemas a load passes through: `t` after the sections before
/// condition mappings, `tm` once the mappings are checked, `tp` after the
/// projection queries, and `s`, the finished schema.
pub open spec fn load_stages(
    raw: RawManifest,
    allow: bool,
    format: ManifestSourceFormat,
    t: ProjectSchema,
    tm: ProjectSchema,
    tp: ProjectSchema,
    s: ProjectSchema,
) -> bool {
    &&& leading_stage(producer_input(raw, allow), raw.types@, raw.registries@, raw.speakers@, raw.conditions@,
        raw.availability_reasons@, t)
    &&& mapped_stage(t, tm, format, conditions_mappings(raw.conditions@, raw.conditions@.len() as int))
    &&& middle_stage(tm, tp, raw.effects@, raw.metadata_domains@, raw.metadata@, raw.projection_queries@, allow)
    &&& final_stage(tp, s, raw.presentation_projectors@, raw.markup@)
}

/// Every problem a load through the schemas `t`, `tp` and `s` reports, in
/// order: the leading sections' problems, then the later sections' and the
/// reference checks'.
pub open spec fn all_problems(
    raw: RawManifest,
    allow: bool,
    source: Seq<char>,
    format: ManifestSourceFormat,
    t: ProjectSchema,
    tp: ProjectSchema,
    s: ProjectSchema,
) -> Seq<Problem> {
    leading_problems(raw, allow, source, format) + trailing_problems(
        t,
        tp,
        s,
        conditions_mappings(raw.conditions@, raw.conditions@.len() as int),
        conditions_pending(raw.conditions@, raw.conditions@.len() as int) + reasons_pending(raw.availability_reasons@,
            raw.availability_reasons@.len() as int),
        raw.effects@,
        raw.metadata_domains@,
        raw.metadata@,
        raw.projection_queries@,
        raw.presentation_projectors@,
        raw.markup@,
        allow,
        format,
    )
}

#[verifier::spinoff_prover]
proof fn lemma_load_exact(
    raw: RawManifest,
    allow: bool,
    source: Seq<char>,
    format: ManifestSourceFormat,
    t: ProjectSchema,
    s: ProjectSchema,
    d1: Seq<Diagnostic>,
    d2: Seq<Diagnostic>,
)
    requires
        reported(Seq::empty(), d1, leading_problems(raw, allow, source, format)),
        leading_stage(producer_input(raw, allow), raw.types@, raw.registries@, raw.speakers@, raw.conditions@,
            raw.availability_reasons@, t),
        trailing_done(t, s, d1, d2, conditions_mappings(raw.conditions@, raw.conditions@.len() as int),
            conditions_pending(raw.conditions@, raw.conditions@.len() as int) + reasons_pending(raw.availability_reasons@,
            raw.availability_reasons@.len() as int), raw.effects@, raw.metadata_domains@, raw.metadata@,
            raw.projection_queries@, raw.presentation_projectors@, raw.markup@, allow, format),
    ensures
        exists|tm: ProjectSchema, tp: ProjectSchema| load_stages(raw, allow, format, t, tm, tp, s)
            && reported(Seq::empty(), d2, all_problems(raw, allow, source, format, t, tp, s)),
{
    reveal(trailing_done);
    let maps = conditions_mappings(raw.conditions@, raw.conditions@.len() as int);
    let refs = conditions_pending(raw.conditions@, raw.conditions@.len() as int) + reasons_pending(
        raw.availability_reasons@, raw.availability_reasons@.len() as int);
    let (tm, tp) = choose|tm: ProjectSchema, tp: ProjectSchema| {
        &&& mapped_stage(t, tm, format, maps)
        &&& middle_stage(tm, tp, raw.effects@, raw.metadata_domains@, raw.metadata@, raw.projection_queries@, allow)
        &&& final_stage(tp, s, raw.presentation_projectors@, raw.markup@)
        &&& reported(d1, d2, trailing_problems(t, tp, s, maps, refs, raw.effects@, raw.metadata_domains@, raw.metadata@,
            raw.projection_queries@, raw.presentation_projectors@, raw.markup@, allow, format))
    };
    lemma_reported_trans(Seq::empty(), d1, d2, leading_problems(raw, allow, source, format), trailing_problems(t, tp, s,
        maps, refs, raw.effects@, raw.metadata_domains@, raw.metadata@, raw.projection_queries@,
        raw.presentation_projectors@, raw.markup@, allow, format));
    assert(load_stages(raw, allow, format, t, tm, tp, s));
}

#[verifier::spinoff_prover]
#[verifier::rlimit(100)]
proof fn lemma_load_loaded(
    raw: RawManifest,
    allow: bool,
    source: Seq<char>,
    format: ManifestSourceFormat,
    t: ProjectSchema,
    s: ProjectSchema,
    d1: Seq<Diagnostic>,
    d2: Seq<Diagnostic>,
)
    requires
        reported(Seq::empty(), d1, leading_problems(raw, allow, source, format)),
        leading_stage(producer_input(raw, allow), raw.types@, raw.registries@, raw.speakers@, raw.conditions@,
            raw.availability_reasons@, t),
        trailing_done(t, s, d1, d2, conditions_mappings(raw.conditions@, raw.conditions@.len() as int),
            conditions_pending(raw.conditions@, raw.conditions@.len() as int) + reasons_pending(raw.availability_reasons@,
            raw.availability_reasons@.len() as int), raw.effects@, raw.metadata_domains@, raw.metadata@,
            raw.projection_queries@, raw.presentation_projectors@, raw.markup@, allow, format),
        d2.len() == 0,
    ensures
        loaded_from(raw, allow, s),
        declared_version(raw.schema_version, source, format) == Some(None::<Seq<char>>),
{
    reveal(trailing_done);
    assert(d1.len() == 0);
    assert forall|n: Seq<char>| #[trigger] s.conditions.has(n) <==> t.conditions.has(n) by {}
}


/// Lower a read manifest in the given source format into the canonical
/// schema model. The schema is returned exactly when no diagnostic was reported.
#[verifier::spinoff_prover]
#[verifier::rlimit(100)]
pub fn lower_manifest_with_format(
    file: &str,
    source: &str,
    raw: RawManifest,
    options: ManifestLoadOptions,
    format: ManifestSourceFormat,
) -> (r: SchemaLoadReport)
    requires
        !blank_producer(raw.producer),
    ensures
        r.schema is Some <==> r.diagnostics@.len() == 0,
        r.schema matches Some(s) ==> loaded_from(raw, options.allow_duplicate_producer_fingerprints, s),
        r.schema matches Some(s) ==> references_resolve(s),
        r.schema matches Some(s) ==> markup_as_written(raw, s),
        r.schema is Some ==> declared_version(raw.schema_version, source@, format) == Some(None::<Seq<char>>),
        exists|t: ProjectSchema, tm: ProjectSchema, tp: ProjectSchema, s: ProjectSchema| {
            &&& load_stages(raw, options.allow_duplicate_producer_fingerprints, format, t, tm, tp, s)
            &&& reported(Seq::empty(), r.diagnostics@, all_problems(raw, options.allow_duplicate_producer_fingerprints,
                source@, format, t, tp, s))
            &&& (r.schema matches Some(x) ==> x == s)
        },
        (forall|t: ProjectSchema, tm: ProjectSchema, tp: ProjectSchema, s: ProjectSchema|
            #[trigger] load_stages(raw, options.allow_duplicate_producer_fingerprints, format, t, tm, tp, s)
            ==> all_problems(raw, options.allow_duplicate_producer_fingerprints, source@, format, t, tp, s).len()
            == 0) ==> r.schema is Some,
{
    let chars = crate::text::str_chars(source);
    let text: &[char] = chars.as_slice();
    let mut diagnostics: Vec<Diagnostic> = Vec::new();
    let mut spans = ManifestSpans::new_with_format(format);
    let mut pending_type_refs: Vec<PendingTypeReference> = Vec::new();
    let mut pending_mappings: Vec<PendingConditionAvailabilityReasonMapping> = Vec::new();
    let allow = options.allow_duplicate_producer_fingerprints;
    let RawManifest {
        schema_version,
        producer,
        content_fingerprint,
        schema_export_version,
        inclusion_policy,
        producer_fingerprints,
        types,
        registries,
        speakers,
        conditions,
        availability_reasons,
        effects,
        metadata_domains,
        metadata,
        projection_queries,
        presentation_projectors,
        markup,
    } = raw;
    let input = ProducerMetadataInput {
        producer,
        content_fingerprint,
        schema_export_version,
        inclusion_policy,
        producer_fingerprints,
        allow_duplicate_fingerprints: allow,
    };
    let mut schema = lower_leading_sections(
        file,
        text,
        source,
        &mut spans,
        &mut diagnostics,
        &mut pending_type_refs,
        &mut pending_mappings,
        &schema_version,
        input,
        types,
        registries,
        speakers,
        conditions,
        availability_reasons,
        format,
    );
    let ghost leading = diagnostics@;
    let ghost s7 = schema;
    proof {
        assert(input == producer_input(raw, allow));
        assert(mappings_view(Seq::<PendingConditionAvailabilityReasonMapping>::empty()) =~= Seq::empty());
        assert(mappings_view(pending_mappings@) =~= conditions_mappings(raw.conditions@, raw.conditions@.len() as int));
        assert(pending_views(Seq::<PendingTypeReference>::empty()) =~= Seq::empty());
        assert(pending_views(pending_type_refs@) =~= conditions_pending(raw.conditions@, raw.conditions@.len() as int)
            + reasons_pending(raw.availability_reasons@, raw.availability_reasons@.len() as int));
    }
    lower_trailing_sections(
        file,
        text,
        &mut spans,
        &mut schema,
        &mut diagnostics,
        pending_type_refs,
        pending_mappings,
        effects,
        metadata_domains,
        metadata,
        projection_queries,
        presentation_projectors,
        markup,
        allow,
        format,
    );
    proof {
        lemma_load_exact(raw, allow, source@, format, s7, schema, leading, diagnostics@);
        if diagnostics@.len() == 0 {
            lemma_load_loaded(raw, allow, source@, format, s7, schema, leading, diagnostics@);
            lemma_loaded_references_resolve(raw, allow, schema);
            lemma_loaded_markup(raw, allow, schema);
        }
    }
    if diagnostics.len() == 0 {
        SchemaLoadReport { schema: Some(schema), diagnostics }
    } else {
        SchemaLoadReport { schema: None, diagnostics }
    }
}

/// Lower a read JSON manifest into the canonical schema model.
pub fn lower_manifest(file: &str, source: &str, raw: RawManifest, options: ManifestLoadOptions) -> (r: SchemaLoadReport)
    requires
        !blank_producer(raw.producer),
    ensures
        r.schema is Some <==> r.diagnostics@.len() == 0,
        r.schema matches Some(s) ==> loaded_from(raw, options.allow_duplicate_producer_fingerprints, s),
        r.schema matches Some(s) ==> references_resolve(s),
        r.schema matches Some(s) ==> markup_as_written(raw, s),
        r.schema is Some ==> declared_version(raw.schema_version, source@, ManifestSourceFormat::Json) == Some(
            None::<Seq<char>>,
        ),
        exists|t: ProjectSchema, tm: ProjectSchema, tp: ProjectSchema, s: ProjectSchema| {
            &&& load_stages(raw, options.allow_duplicate_producer_fingerprints, ManifestSourceFormat::Json, t, tm, tp, s)
            &&& reported(Seq::empty(), r.diagnostics@, all_problems(raw, options.allow_duplicate_producer_fingerprints, source@, ManifestSourceFormat::Json, t, tp, s))
            &&& (r.schema matches Some(x) ==> x == s)
        },
        ((forall|t: ProjectSchema, tm: ProjectSchema, tp: ProjectSchema, s: ProjectSchema|
            #[trigger] load_stages(raw, options.allow_duplicate_producer_fingerprints, ManifestSourceFormat::Json, t, tm, tp, s)
            ==> all_problems(raw, options.allow_duplicate_producer_fingerprints, source@, ManifestSourceFormat::Json, t, tp, s).len() == 0) ==> r.schema is Some),
{
    lower_manifest_with_format(file, source, raw, options, ManifestSourceFormat::Json)
}

/// The problem of manifest text that does not parse.
pub open spec fn parse_problem(e: ManifestParseError) -> Problem {
    problem_with(
        "RECITE_SCHEMA001"@,
        "diagnostic-schema-001-json-parse"@,
        "malformed schema manifest: "@ + e.message@,
        seq![("detail"@, ArgumentView::Text(e.message@))],
    )
}

/// The span of a parse error: its line and column, else the document start.
pub fn parse_error_span(file: &str, error: &ManifestParseError) -> (r: SourceSpan)
    ensures
        r.file@ == file@,
        r.end is None,
        if 1 <= error.line <= u32::MAX && 1 <= error.column <= u32::MAX {
            r.start.line == error.line && r.start.column == error.column
        } else {
            r.start.line == 1 && r.start.column == 1
        },
{
    if error.line == 0 || error.column == 0 || error.line > 0xFFFF_FFFF || error.column > 0xFFFF_FFFF {
        return document_start_span(file);
    }
    match SourcePosition::new(error.line as u32, error.column as u32) {
        Some(p) => SourceSpan::point(file, p),
        None => document_start_span(file),
    }
}

fn load_with_options(
    file: &str,
    source: &str,
    parsed: Result<RawManifest, ManifestParseError>,
    options: ManifestLoadOptions,
) -> (r: SchemaLoadReport)
    requires
        parsed matches Ok(raw) ==> !blank_producer(raw.producer),
    ensures
        r.schema is Some <==> r.diagnostics@.len() == 0,
        r.schema matches Some(s) ==> parsed is Ok
            && loaded_from(parsed->Ok_0, options.allow_duplicate_producer_fingerprints, s),
        r.schema matches Some(s) ==> references_resolve(s),
        r.schema matches Some(s) ==> markup_as_written(parsed->Ok_0, s),
        r.schema is Some ==> declared_version(parsed->Ok_0.schema_version, source@, ManifestSourceFormat::Json)
            == Some(None::<Seq<char>>),
        parsed is Ok ==> exists|t: ProjectSchema, tm: ProjectSchema, tp: ProjectSchema, s: ProjectSchema| {
            &&& load_stages(parsed->Ok_0, options.allow_duplicate_producer_fingerprints, ManifestSourceFormat::Json, t, tm, tp, s)
            &&& reported(Seq::empty(), r.diagnostics@, all_problems(parsed->Ok_0, options.allow_duplicate_producer_fingerprints, source@, ManifestSourceFormat::Json, t, tp, s))
            &&& (r.schema matches Some(x) ==> x == s)
        },
        parsed is Ok ==> ((forall|t: ProjectSchema, tm: ProjectSchema, tp: ProjectSchema, s: ProjectSchema|
            #[trigger] load_stages(parsed->Ok_0, options.allow_duplicate_producer_fingerprints, ManifestSourceFormat::Json, t, tm, tp, s)
            ==> all_problems(parsed->Ok_0, options.allow_duplicate_producer_fingerprints, source@, ManifestSourceFormat::Json, t, tp, s).len() == 0) ==> r.schema is Some),
        parsed is Err ==> r.schema is None && r.diagnostics@.len() == 1
            && crate::diagnostics::reports(r.diagnostics@[0], parse_problem(parsed->Err_0)),
{
    match parsed {
        Ok(raw) => lower_manifest(file, source, raw, options),
        Err(error) => {
            let ghost e = error;
            let span = parse_error_span(file, &error);
            let message = crate::text::concat2("malformed schema manifest: ", error.message.as_str());
            let args = vec![text_arg("detail", error.message.as_str())];
            let mut diagnostics: Vec<Diagnostic> = Vec::new();
            proof {
                assert(crate::diagnostics::arguments_view(args@) =~= parse_problem(e).arguments);
            }
            report(&mut diagnostics, crate::diagnostics::malformed_shape(), "diagnostic-schema-001-json-parse", message, span, args);
            proof {
                crate::diagnostics::lemma_reported_only(diagnostics@, parse_problem(e));
            }
            SchemaLoadReport { schema: None, diagnostics }
        },
    }
}

/// Load a generated JSON schema manifest, given what the JSON reader made
/// of its text, into the canonical schema model. Repeated producer
/// fingerprints are reported.
pub fn load_schema_manifest_str(
    file: &str,
    source: &str,
    parsed: Result<RawManifest, ManifestParseError>,
) -> (r: SchemaLoadReport)
    requires
        parsed matches Ok(raw) ==> !blank_producer(raw.producer),
    ensures
        r.schema is Some <==> r.diagnostics@.len() == 0,
        r.schema matches Some(s) ==> parsed is Ok && loaded_from(parsed->Ok_0, false, s),
        r.schema matches Some(s) ==> references_resolve(s),
        r.schema matches Some(s) ==> markup_as_written(parsed->Ok_0, s),
        r.schema is Some ==> declared_version(parsed->Ok_0.schema_version, source@, ManifestSourceFormat::Json)
            == Some(None::<Seq<char>>),
        parsed is Ok ==> exists|t: ProjectSchema, tm: ProjectSchema, tp: ProjectSchema, s: ProjectSchema| {
            &&& load_stages(parsed->Ok_0, false, ManifestSourceFormat::Json, t, tm, tp, s)
            &&& reported(Seq::empty(), r.diagnostics@, all_problems(parsed->Ok_0, false, source@, ManifestSourceFormat::Json, t, tp, s))
            &&& (r.schema matches Some(x) ==> x == s)
        },
        parsed is Ok ==> ((forall|t: ProjectSchema, tm: ProjectSchema, tp: ProjectSchema, s: ProjectSchema|
            #[trigger] load_stages(parsed->Ok_0, false, ManifestSourceFormat::Json, t, tm, tp, s)
            ==> all_problems(parsed->Ok_0, false, source@, ManifestSourceFormat::Json, t, tp, s).len() == 0) ==> r.schema is Some),
        parsed is Err ==> r.schema is None && r.diagnostics@.len() == 1
            && crate::diagnostics::reports(r.diagnostics@[0], parse_problem(parsed->Err_0)),
{
    load_with_options(file, source, parsed, ManifestLoadOptions { allow_duplicate_producer_fingerprints: false })
}

/// Load a manifest for producer freshness comparison: repeated producer
/// fingerprints are kept in the model rather than reported.
pub fn load_schema_manifest_for_freshness_str(
    file: &str,
    source: &str,
    parsed: Result<RawManifest, ManifestParseError>,
) -> (r: SchemaLoadReport)
    requires
        parsed matches Ok(raw) ==> !blank_producer(raw.producer),
    ensures
        r.schema is Some <==> r.diagnostics@.len() == 0,
        r.schema matches Some(s) ==> parsed is Ok && loaded_from(parsed->Ok_0, true, s),
        r.schema matches Some(s) ==> references_resolve(s),
        r.schema matches Some(s) ==> markup_as_written(parsed->Ok_0, s),
        r.schema is Some ==> declared_version(parsed->Ok_0.schema_version, source@, ManifestSourceFormat::Json)
            == Some(None::<Seq<char>>),
        parsed is Ok ==> exists|t: ProjectSchema, tm: ProjectSchema, tp: ProjectSchema, s: ProjectSchema| {
            &&& load_stages(parsed->Ok_0, true, ManifestSourceFormat::Json, t, tm, tp, s)
            &&& reported(Seq::empty(), r.diagnostics@, all_problems(parsed->Ok_0, true, source@, ManifestSourceFormat::Json, t, tp, s))
            &&& (r.schema matches Some(x) ==> x == s)
        },
        parsed is Ok ==> ((forall|t: ProjectSchema, tm: ProjectSchema, tp: ProjectSchema, s: ProjectSchema|
            #[trigger] load_stages(parsed->Ok_0, true, ManifestSourceFormat::Json, t, tm, tp, s)
            ==> all_problems(parsed->Ok_0, true, source@, ManifestSourceFormat::Json, t, tp, s).len() == 0) ==> r.schema is Some),
        parsed is Err ==> r.schema is None && r.diagnostics@.len() == 1
            && crate::diagnostics::reports(r.diagnostics@[0], parse_problem(parsed->Err_0)),
{
    load_with_options(file, source, parsed, ManifestLoadOptions { allow_duplicate_producer_fingerprints: true })
}

} // verus!
