//! Lowering of metadata value domains: flat and contextual domains, their
//! missing-context policy and their provenance.
use vstd::prelude::*;
use crate::collections::{StrMap, StrSet};
use crate::diagnostics::{
    lemma_reported_none, lemma_reported_push, lemma_reported_trans, problem_of, problem_with,
    report, reported, text_arg, ArgumentView, Diagnostic, Problem, SourceSpan,
};
use crate::manifest::lower::content::{domain_refs_extend, domain_refs_view, lemma_domain_refs_extend_trans};
use crate::manifest::lower::producer::{
    fps_problems, lower_origin, lower_origin_map, lower_producer_fingerprints, origin_key_kept,
    origin_map_problems, origin_map_values, opt_origin_map_values,
};
use crate::manifest::lower::registries::{fps_lowered, opt_origin_problems, origin_lowered};
use crate::manifest::raw::{
    RawContextOrigins, RawDomainValueOrigins, RawMissingMetadataContext, RawOriginMap,
    RawProducerFingerprint, RawProducerOrigin,
};
use crate::manifest::validate::{
    duplicate_definition, duplicate_view, invalid_name_view, spec_is_manifest_name,
    validate_manifest_name,
};
use crate::manifest::lower::definitions::name_problems;
use crate::model::ProjectSchema;
use crate::manifest::lower::definitions::{
    canonical_string_values_at, entry_names, is_first_named, lemma_push_contains_seq_pub,
    nonempty_values, texts, value_problems,
};
use crate::manifest::lower::producer::{unknown_keys_problems, validate_origin_keys};
use crate::manifest::raw::{Named, RawMetadataDomainDefinition};
use crate::manifest::validate::{context_selector_of, parse_metadata_context_selector, selector_view};
use crate::model::{ContextualMetadataDomain, FlatMetadataDomain, MetadataDomainDefinition};
use crate::order::sorted_texts_of;
use crate::model::producer::{ContextualMetadataProvenance, FlatMetadataProvenance, ProducerOrigin};
use crate::manifest::spans::ManifestSpans;
use crate::manifest::validate::PendingDomainReference;
use crate::model::MissingMetadataContextPolicy;

verus! {

/// A malformed-shape problem.
pub open spec fn shape_problem(id: Seq<char>, message: Seq<char>, arguments: Seq<(Seq<char>, ArgumentView)>) -> Problem {
    problem_with("RECITE_SCHEMA001"@, id, message, arguments)
}

/// `metadata domain '<name>'`.
pub open spec fn domain_owner(name: Seq<char>) -> Seq<char> {
    "metadata domain '"@ + name + "'"@
}

// ---------------------------------------------------------------------------
// Fields that a domain kind does not allow.

/// The fields present on a domain that its kind does not allow, in order.
pub open spec fn wrong_kind_fields(
    kind: Seq<char>,
    has_values: bool,
    has_selector: bool,
    has_values_by_context: bool,
    has_missing_context: bool,
    has_context_origins: bool,
) -> Seq<Seq<char>> {
    if kind == "flat"@ {
        (if has_selector { seq!["selector"@] } else { Seq::empty() })
            + (if has_values_by_context { seq!["values_by_context"@] } else { Seq::empty() })
            + (if has_missing_context { seq!["missing_context"@] } else { Seq::empty() })
            + (if has_context_origins { seq!["context_origins"@] } else { Seq::empty() })
    } else if kind == "contextual"@ {
        if has_values { seq!["values"@] } else { Seq::empty() }
    } else {
        Seq::empty()
    }
}

/// The problem of a field that a domain's kind does not allow.
pub open spec fn kind_field_problem(owner: Seq<char>, field: Seq<char>, kind: Seq<char>) -> Problem {
    shape_problem(
        "diagnostic-schema-001-domain-kind-field"@,
        "metadata domain '"@ + owner + "' does not allow '"@ + field + "' for kind '"@ + kind + "'"@,
        seq![("domain"@, ArgumentView::Text(owner)), ("field"@, ArgumentView::Text(field)), ("kind"@, ArgumentView::Text(kind))],
    )
}

/// The problems of the fields that a domain's kind does not allow.
pub open spec fn kind_field_problems(owner: Seq<char>, fields: Seq<Seq<char>>, kind: Seq<char>) -> Seq<Problem> {
    fields.map_values(|f: Seq<char>| kind_field_problem(owner, f, kind))
}

fn report_kind_field(
    diagnostics: &mut Vec<Diagnostic>,
    present: bool,
    owner: &str,
    field: &str,
    kind: &str,
    span: &SourceSpan,
)
    ensures
        reported(old(diagnostics)@, final(diagnostics)@, if present {
            seq![kind_field_problem(owner@, field@, kind@)]
        } else {
            Seq::empty()
        }),
{
    if present {
        let mut message = crate::text::concat3("metadata domain '", owner, "' does not allow '");
        crate::text::push_text(&mut message, field);
        crate::text::push_text(&mut message, "' for kind '");
        crate::text::push_text(&mut message, kind);
        crate::text::push_text(&mut message, "'");
        let args = vec![text_arg("domain", owner), text_arg("field", field), text_arg("kind", kind)];
        proof {
            assert(crate::diagnostics::arguments_view(args@) =~= kind_field_problem(owner@, field@, kind@).arguments);
        }
        report(diagnostics, crate::diagnostics::malformed_shape(), "diagnostic-schema-001-domain-kind-field", message, span.copy(), args);
    } else {
        proof {
            lemma_reported_none(diagnostics@);
        }
    }
}

/// Report each field that the domain's kind does not allow; true when there is none.
pub fn validate_domain_kind_fields(
    diagnostics: &mut Vec<Diagnostic>,
    kind: &str,
    has_values: bool,
    has_selector: bool,
    has_values_by_context: bool,
    has_missing_context: bool,
    has_context_origins: bool,
    owner: &str,
    span: &SourceSpan,
) -> (r: bool)
    ensures
        reported(old(diagnostics)@, final(diagnostics)@, kind_field_problems(owner@,
            wrong_kind_fields(kind@, has_values, has_selector, has_values_by_context, has_missing_context, has_context_origins), kind@)),
        r == (wrong_kind_fields(kind@, has_values, has_selector, has_values_by_context, has_missing_context, has_context_origins).len() == 0),
{
    let ghost start = diagnostics@;
    let ghost o = owner@;
    let ghost k = kind@;
    if crate::text::str_eq(kind, "flat") {
        report_kind_field(diagnostics, has_selector, owner, "selector", kind, span);
        let ghost m1 = diagnostics@;
        report_kind_field(diagnostics, has_values_by_context, owner, "values_by_context", kind, span);
        let ghost m2 = diagnostics@;
        report_kind_field(diagnostics, has_missing_context, owner, "missing_context", kind, span);
        let ghost m3 = diagnostics@;
        report_kind_field(diagnostics, has_context_origins, owner, "context_origins", kind, span);
        proof {
            let a = if has_selector { seq!["selector"@] } else { Seq::<Seq<char>>::empty() };
            let b = if has_values_by_context { seq!["values_by_context"@] } else { Seq::<Seq<char>>::empty() };
            let c = if has_missing_context { seq!["missing_context"@] } else { Seq::<Seq<char>>::empty() };
            let d = if has_context_origins { seq!["context_origins"@] } else { Seq::<Seq<char>>::empty() };
            lemma_reported_trans(start, m1, m2, kind_field_problems(o, a, k), kind_field_problems(o, b, k));
            lemma_reported_trans(start, m2, m3, kind_field_problems(o, a, k) + kind_field_problems(o, b, k), kind_field_problems(o, c, k));
            lemma_reported_trans(start, m3, diagnostics@, kind_field_problems(o, a, k) + kind_field_problems(o, b, k)
                + kind_field_problems(o, c, k), kind_field_problems(o, d, k));
            assert(kind_field_problems(o, a, k) + kind_field_problems(o, b, k) + kind_field_problems(o, c, k)
                + kind_field_problems(o, d, k) =~= kind_field_problems(o, a + b + c + d, k));
        }
        !(has_selector || has_values_by_context || has_missing_context || has_context_origins)
    } else if crate::text::str_eq(kind, "contextual") {
        report_kind_field(diagnostics, has_values, owner, "values", kind, span);
        proof {
            let a = if has_values { seq!["values"@] } else { Seq::<Seq<char>>::empty() };
            assert(kind_field_problems(o, a, k) =~= if has_values {
                seq![kind_field_problem(o, "values"@, k)]
            } else {
                Seq::empty()
            });
        }
        !has_values
    } else {
        proof {
            lemma_reported_none(start);
            assert(kind_field_problems(o, Seq::empty(), k) =~= Seq::<Problem>::empty());
        }
        true
    }
}

// ---------------------------------------------------------------------------
// Missing-context policy.

/// Character-level view of a missing-context policy.
pub enum PolicyView {
    Diagnostic,
    Empty,
    Fallback(Seq<char>),
}

/// View of a lowered policy.
pub open spec fn policy_view(p: MissingMetadataContextPolicy) -> PolicyView {
    match p {
        MissingMetadataContextPolicy::Diagnostic => PolicyView::Diagnostic,
        MissingMetadataContextPolicy::Empty => PolicyView::Empty,
        MissingMetadataContextPolicy::Fallback { domain } => PolicyView::Fallback(domain@),
    }
}

/// The problem of a policy that declares a domain it does not use.
pub open spec fn policy_domain_problem(owner: Seq<char>, policy: Seq<char>) -> Problem {
    shape_problem(
        "diagnostic-schema-001-domain-policy-domain"@,
        "metadata domain '"@ + owner + "' "@ + policy + " policy must not declare domain"@,
        seq![("domain"@, ArgumentView::Text(owner)), ("policy"@, ArgumentView::Text(policy))],
    )
}

/// The policy a raw missing-context member gives.
pub open spec fn policy_of(raw: Option<RawMissingMetadataContext>) -> PolicyView {
    match raw {
        None => PolicyView::Diagnostic,
        Some(m) => if m.policy@ == "empty"@ {
            PolicyView::Empty
        } else if m.policy@ == "fallback"@ && m.domain is Some {
            PolicyView::Fallback(m.domain->0@)
        } else {
            PolicyView::Diagnostic
        },
    }
}

/// The missing-context policy names read as the policies they name: `empty`
/// is empty, `fallback` with a domain falls back to it, and no policy, or any
/// other, reports a diagnostic.
pub proof fn lemma_policy_names(m: RawMissingMetadataContext)
    ensures
        policy_of(None) == PolicyView::Diagnostic,
        m.policy@ == "empty"@ ==> policy_of(Some(m)) == PolicyView::Empty,
        m.policy@ == "fallback"@ && m.domain is Some ==> policy_of(Some(m)) == PolicyView::Fallback(m.domain->0@),
        m.policy@ == "diagnostic"@ ==> policy_of(Some(m)) == PolicyView::Diagnostic,
{
    reveal_strlit("empty");
    reveal_strlit("fallback");
    reveal_strlit("diagnostic");
    assert("fallback"@[0] != "empty"@[0]);
    assert("diagnostic"@[0] != "empty"@[0] && "diagnostic"@[0] != "fallback"@[0]);
}

/// The problems of a raw missing-context member.
pub open spec fn policy_problems(owner: Seq<char>, raw: Option<RawMissingMetadataContext>) -> Seq<Problem> {
    match raw {
        None => Seq::empty(),
        Some(m) => if m.policy@ == "diagnostic"@ || m.policy@ == "empty"@ {
            if m.domain is Some { seq![policy_domain_problem(owner, m.policy@)] } else { Seq::empty() }
        } else if m.policy@ == "fallback"@ {
            if m.domain is Some {
                Seq::empty()
            } else {
                seq![shape_problem(
                    "diagnostic-schema-001-domain-fallback-domain"@,
                    "metadata domain '"@ + owner + "' fallback policy requires domain"@,
                    seq![("domain"@, ArgumentView::Text(owner))],
                )]
            }
        } else {
            seq![shape_problem(
                "diagnostic-schema-001-domain-policy"@,
                "metadata domain '"@ + owner + "' uses unsupported missing_context policy '"@ + m.policy@ + "'"@,
                seq![("domain"@, ArgumentView::Text(owner)), ("policy"@, ArgumentView::Text(m.policy@))],
            )]
        },
    }
}

/// The domain reference a raw missing-context member leaves to check:
/// a fallback domain must exist and be flat.
pub open spec fn policy_domain_refs(owner: Seq<char>, raw: Option<RawMissingMetadataContext>) -> Seq<(Seq<char>, Seq<char>, bool)> {
    match raw {
        Some(m) => if m.policy@ == "fallback"@ && m.domain is Some {
            seq![("metadata domain '"@ + owner + "' fallback"@, m.domain->0@, true)]
        } else {
            Seq::empty()
        },
        None => Seq::empty(),
    }
}

/// Lower a contextual domain's missing-context policy; a fallback domain is
/// left as a pending reference.
pub fn lower_missing_context(
    file: &str,
    source: &[char],
    spans: &mut ManifestSpans,
    owner: &str,
    raw: Option<RawMissingMetadataContext>,
    diagnostics: &mut Vec<Diagnostic>,
    pending_domain_refs: &mut Vec<PendingDomainReference>,
) -> (r: MissingMetadataContextPolicy)
    ensures
        policy_view(r) == policy_of(raw),
        reported(old(diagnostics)@, final(diagnostics)@, policy_problems(owner@, raw)),
        domain_refs_view(final(pending_domain_refs)@) == domain_refs_view(old(pending_domain_refs)@) + policy_domain_refs(owner@, raw),
        domain_refs_extend(old(pending_domain_refs)@, final(pending_domain_refs)@),
{
    let ghost start = diagnostics@;
    let ghost pstart = pending_domain_refs@;
    proof {
        reveal_strlit("diagnostic");
        reveal_strlit("empty");
        reveal_strlit("fallback");
        lemma_reported_none(start);
        assert(domain_refs_view(pstart) + Seq::<(Seq<char>, Seq<char>, bool)>::empty() =~= domain_refs_view(pstart));
        assert(pstart.subrange(0, pstart.len() as int) =~= pstart);
    }
    let raw = match raw {
        None => {
            return MissingMetadataContextPolicy::Diagnostic;
        },
        Some(m) => m,
    };
    let RawMissingMetadataContext { policy, domain } = raw;
    let is_diagnostic = crate::text::str_eq(policy.as_str(), "diagnostic");
    let is_empty = crate::text::str_eq(policy.as_str(), "empty");
    if is_diagnostic || is_empty {
        if let Some(d) = &domain {
            let span = spans.next_string_span(file, source, d.as_str());
            let mut message = crate::text::concat3("metadata domain '", owner, "' ");
            crate::text::push_text(&mut message, policy.as_str());
            crate::text::push_text(&mut message, " policy must not declare domain");
            let args = vec![text_arg("domain", owner), text_arg("policy", policy.as_str())];
            proof {
                assert(crate::diagnostics::arguments_view(args@) =~= policy_domain_problem(owner@, policy@).arguments);
            }
            report(diagnostics, crate::diagnostics::malformed_shape(), "diagnostic-schema-001-domain-policy-domain", message, span, args);
        }
        if is_empty {
            MissingMetadataContextPolicy::Empty
        } else {
            MissingMetadataContextPolicy::Diagnostic
        }
    } else if crate::text::str_eq(policy.as_str(), "fallback") {
        match domain {
            None => {
                let span = spans.next_string_span(file, source, "fallback");
                let message = crate::text::concat3("metadata domain '", owner, "' fallback policy requires domain");
                let args = vec![text_arg("domain", owner)];
                proof {
                    assert(crate::diagnostics::arguments_view(args@) =~= seq![("domain"@, ArgumentView::Text(owner@))]);
                }
                report(diagnostics, crate::diagnostics::malformed_shape(), "diagnostic-schema-001-domain-fallback-domain", message, span, args);
                MissingMetadataContextPolicy::Diagnostic
            },
            Some(d) => {
                let span = spans.next_string_span(file, source, d.as_str());
                let ref_owner = crate::text::concat3("metadata domain '", owner, "' fallback");
                pending_domain_refs.push(PendingDomainReference {
                    owner: ref_owner,
                    domain: crate::text::copy_string(&d),
                    require_flat: true,
                    span,
                });
                proof {
                    assert(domain_refs_view(pending_domain_refs@) =~= domain_refs_view(pstart) + policy_domain_refs(owner@, Some(raw)));
                    assert(pending_domain_refs@.subrange(0, pstart.len() as int) =~= pstart);
                }
                MissingMetadataContextPolicy::Fallback { domain: d }
            },
        }
    } else {
        let span = spans.next_string_span(file, source, policy.as_str());
        let mut message = crate::text::concat3("metadata domain '", owner, "' uses unsupported missing_context policy '");
        crate::text::push_text(&mut message, policy.as_str());
        crate::text::push_text(&mut message, "'");
        let args = vec![text_arg("domain", owner), text_arg("policy", policy.as_str())];
        proof {
            assert(crate::diagnostics::arguments_view(args@) =~= seq![
                ("domain"@, ArgumentView::Text(owner@)),
                ("policy"@, ArgumentView::Text(policy@)),
            ]);
        }
        report(diagnostics, crate::diagnostics::malformed_shape(), "diagnostic-schema-001-domain-policy", message, span, args);
        MissingMetadataContextPolicy::Diagnostic
    }
}

// ---------------------------------------------------------------------------
// Domain provenance.

/// A problem about an owner's provenance member: the owner's name followed by `suffix`.
pub open spec fn owner_problem(id: Seq<char>, owner: Seq<char>, suffix: Seq<char>) -> Problem {
    shape_problem(id, owner + suffix, seq![("owner"@, ArgumentView::Text(owner))])
}

fn report_owner(diagnostics: &mut Vec<Diagnostic>, id: &str, owner: &str, suffix: &str, span: &SourceSpan)
    ensures
        reported(old(diagnostics)@, final(diagnostics)@, seq![owner_problem(id@, owner@, suffix@)]),
{
    let message = crate::text::concat2(owner, suffix);
    let args = vec![text_arg("owner", owner)];
    proof {
        assert(crate::diagnostics::arguments_view(args@) =~= seq![("owner"@, ArgumentView::Text(owner@))]);
    }
    report(diagnostics, crate::diagnostics::malformed_shape(), id, message, span.copy(), args);
}

/// The keys an origin map keeps.
pub open spec fn origin_map_keys(m: RawOriginMap) -> Set<Seq<char>> {
    match m {
        RawOriginMap::Entries(es) => Set::new(|k: Seq<char>| origin_key_kept(es@, es@.len() as int, k)),
        RawOriginMap::Malformed => Set::empty(),
    }
}

/// The problems of a flat domain's `value_origins`.
pub open spec fn flat_value_map_problems(owner: Seq<char>, vo: Option<RawDomainValueOrigins>) -> Seq<Problem> {
    match vo {
        None => Seq::empty(),
        Some(v) => match v.flat {
            RawOriginMap::Malformed => seq![owner_problem("diagnostic-schema-001-flat-value-origins"@, owner,
                " flat value_origins must map values to origins"@)],
            RawOriginMap::Entries(es) => origin_map_problems(owner + " value"@, es@, es@.len() as int),
        },
    }
}

/// The value keys a flat domain's `value_origins` keeps.
pub open spec fn flat_value_keys(vo: Option<RawDomainValueOrigins>) -> Set<Seq<char>> {
    match vo {
        Some(v) => origin_map_keys(v.flat),
        None => Set::empty(),
    }
}

/// A flat domain's `value_origins` read as origins by value.
pub open spec fn flat_origin_map(vo: Option<RawDomainValueOrigins>) -> Option<RawOriginMap> {
    match vo {
        Some(v) => Some(v.flat),
        None => None,
    }
}

/// The problems of a flat domain's provenance, in order: value origins, origin, fingerprints.
pub open spec fn flat_provenance_problems(
    owner: Seq<char>,
    origin: Option<RawProducerOrigin>,
    vo: Option<RawDomainValueOrigins>,
    fps: Seq<RawProducerFingerprint>,
    allow: bool,
) -> Seq<Problem> {
    flat_value_map_problems(owner, vo) + opt_origin_problems(owner, origin) + fps_problems(owner, fps, fps.len() as int, allow)
}

fn lower_origin_map_or_empty(
    file: &str,
    source: &[char],
    spans: &mut ManifestSpans,
    diagnostics: &mut Vec<Diagnostic>,
    raw: RawOriginMap,
    owner: &str,
) -> (r: StrMap<ProducerOrigin>)
    requires
        raw is Entries,
    ensures
        reported(old(diagnostics)@, final(diagnostics)@, origin_map_problems(owner@, raw->Entries_0@, raw->Entries_0@.len() as int)),
        r.keys().to_set() == origin_map_keys(raw),
        origin_map_values(r, raw),
{
    match raw {
        RawOriginMap::Entries(es) => {
            let ghost e = es@;
            let m = lower_origin_map(file, source, spans, diagnostics, es, owner);
            proof {
                assert forall|k: Seq<char>| m.keys().to_set().contains(k) <==> origin_map_keys(RawOriginMap::Entries(es)).contains(k) by {
                    assert(m.keys().to_set().contains(k) == m.has(k));
                }
                assert(m.keys().to_set() =~= origin_map_keys(RawOriginMap::Entries(es)));
            }
            m
        },
        RawOriginMap::Malformed => StrMap::new(),
    }
}

/// Lower a flat domain's provenance.
pub fn lower_flat_domain_provenance(
    file: &str,
    source: &[char],
    spans: &mut ManifestSpans,
    diagnostics: &mut Vec<Diagnostic>,
    origin: Option<RawProducerOrigin>,
    value_origins: Option<RawDomainValueOrigins>,
    producer_fingerprints: Vec<RawProducerFingerprint>,
    owner: &str,
    span: &SourceSpan,
    allow: bool,
) -> (r: FlatMetadataProvenance)
    ensures
        reported(old(diagnostics)@, final(diagnostics)@, flat_provenance_problems(owner@, origin, value_origins,
            producer_fingerprints@, allow)),
        origin_lowered(r.origin, origin),
        r.value_origins.keys().to_set() == flat_value_keys(value_origins),
        opt_origin_map_values(r.value_origins, flat_origin_map(value_origins)),
        fps_lowered(r.producer_fingerprints@, producer_fingerprints@, allow),
{
    let ghost start = diagnostics@;
    let ghost vo = value_origins;
    let ghost fs = producer_fingerprints@;
    let values = match value_origins {
        None => {
            proof {
                lemma_reported_none(start);
            }
            StrMap::new()
        },
        Some(v) => {
            let RawDomainValueOrigins { flat, by_context: _ } = v;
            match flat {
                RawOriginMap::Malformed => {
                    report_owner(diagnostics, "diagnostic-schema-001-flat-value-origins", owner,
                        " flat value_origins must map values to origins", span);
                    StrMap::new()
                },
                RawOriginMap::Entries(es) => {
                    let value_owner = crate::text::concat2(owner, " value");
                    lower_origin_map_or_empty(file, source, spans, diagnostics, RawOriginMap::Entries(es), value_owner.as_str())
                },
            }
        },
    };
    let ghost m1 = diagnostics@;
    proof {
        assert(values.keys().to_set() =~= flat_value_keys(vo));
    }
    let lowered_origin = lower_origin(file, source, spans, diagnostics, origin, owner);
    let ghost m2 = diagnostics@;
    proof {
        if origin is None {
            lemma_reported_none(m1);
        }
    }
    let fps = lower_producer_fingerprints(file, source, spans, diagnostics, producer_fingerprints, owner, allow);
    proof {
        lemma_reported_trans(start, m1, m2, flat_value_map_problems(owner@, vo), opt_origin_problems(owner@, origin));
        lemma_reported_trans(start, m2, diagnostics@, flat_value_map_problems(owner@, vo) + opt_origin_problems(owner@, origin),
            fps_problems(owner@, fs, fs.len() as int, allow));
    }
    FlatMetadataProvenance { origin: lowered_origin, value_origins: values, producer_fingerprints: fps }
}

/// The problems of one context of a contextual domain's `value_origins`.
pub open spec fn ctx_origin_entry_problems(owner: Seq<char>, e: (String, RawOriginMap)) -> Seq<Problem> {
    if !spec_is_manifest_name(e.0@) {
        seq![owner_problem("diagnostic-schema-001-context-origin-name"@, owner,
            " provenance context must be an identifier-like name"@)]
    } else {
        match e.1 {
            RawOriginMap::Entries(x) => origin_map_problems(owner + " context value"@, x@, x@.len() as int),
            RawOriginMap::Malformed => seq![owner_problem("diagnostic-schema-001-contextual-value-origins"@, owner,
                " contextual value_origins must map contexts to values"@)],
        }
    }
}

/// The problems of the first `n` contexts of a contextual domain's `value_origins`.
pub open spec fn ctx_origin_entries_problems(owner: Seq<char>, es: Seq<(String, RawOriginMap)>, n: int) -> Seq<Problem>
    decreases n,
{
    if n <= 0 {
        Seq::empty()
    } else {
        ctx_origin_entries_problems(owner, es, n - 1) + ctx_origin_entry_problems(owner, es[n - 1])
    }
}

/// The value keys kept by context, from the first `n` contexts; a later
/// context of the same name replaces an earlier one.
pub open spec fn ctx_origin_keys(es: Seq<(String, RawOriginMap)>, n: int) -> Map<Seq<char>, Set<Seq<char>>>
    decreases n,
{
    if n <= 0 {
        Map::empty()
    } else {
        let m = ctx_origin_keys(es, n - 1);
        if spec_is_manifest_name(es[n - 1].0@) {
            m.insert(es[n - 1].0@, origin_map_keys(es[n - 1].1))
        } else {
            m
        }
    }
}

/// The origin map of each context among the first `n`; a later context of
/// the same name replaces an earlier one.
pub open spec fn ctx_origin_maps(es: Seq<(String, RawOriginMap)>, n: int) -> Map<Seq<char>, RawOriginMap>
    decreases n,
{
    if n <= 0 {
        Map::empty()
    } else {
        let m = ctx_origin_maps(es, n - 1);
        if spec_is_manifest_name(es[n - 1].0@) {
            m.insert(es[n - 1].0@, es[n - 1].1)
        } else {
            m
        }
    }
}

/// The origin maps by context that a contextual domain's `value_origins` holds.
pub open spec fn ctx_value_maps(vo: Option<RawDomainValueOrigins>) -> Map<Seq<char>, RawOriginMap> {
    match vo {
        Some(v) => match v.by_context {
            RawContextOrigins::Entries(es) => ctx_origin_maps(es@, es@.len() as int),
            RawContextOrigins::Malformed => Map::empty(),
        },
        None => Map::empty(),
    }
}

/// The origins of each context hold the values of that context's origin map.
pub open spec fn ctx_origins_valued(r: StrMap<StrMap<ProducerOrigin>>, m: Map<Seq<char>, RawOriginMap>) -> bool {
    forall|c: Seq<char>| #[trigger] r.has(c) ==> m.dom().contains(c) && origin_map_values(r.spec_get(c)->0, m[c])
}

/// The problems of a contextual domain's `value_origins`.
pub open spec fn ctx_value_map_problems(owner: Seq<char>, vo: Option<RawDomainValueOrigins>) -> Seq<Problem> {
    match vo {
        None => Seq::empty(),
        Some(v) => match v.by_context {
            RawContextOrigins::Malformed => seq![owner_problem("diagnostic-schema-001-contextual-value-origins"@, owner,
                " contextual value_origins must map contexts to values"@)],
            RawContextOrigins::Entries(es) => ctx_origin_entries_problems(owner, es@, es@.len() as int),
        },
    }
}

/// The value keys by context that a contextual domain's `value_origins` keeps.
pub open spec fn ctx_value_keys(vo: Option<RawDomainValueOrigins>) -> Map<Seq<char>, Set<Seq<char>>> {
    match vo {
        Some(v) => match v.by_context {
            RawContextOrigins::Entries(es) => ctx_origin_keys(es@, es@.len() as int),
            RawContextOrigins::Malformed => Map::empty(),
        },
        None => Map::empty(),
    }
}

/// The problems of a contextual domain's `context_origins`.
pub open spec fn context_origin_map_problems(owner: Seq<char>, co: Option<RawOriginMap>) -> Seq<Problem> {
    match co {
        None => Seq::empty(),
        Some(RawOriginMap::Malformed) => seq![owner_problem("diagnostic-schema-001-context-origins"@, owner,
            " context_origins must map contexts to origins"@)],
        Some(RawOriginMap::Entries(es)) => origin_map_problems(owner + " context"@, es@, es@.len() as int),
    }
}

/// The context keys a contextual domain's `context_origins` keeps.
pub open spec fn context_origin_keys(co: Option<RawOriginMap>) -> Set<Seq<char>> {
    match co {
        Some(m) => origin_map_keys(m),
        None => Set::empty(),
    }
}

/// The problems of a contextual domain's provenance, in order: value
/// origins, origin, context origins, fingerprints.
pub open spec fn contextual_provenance_problems(
    owner: Seq<char>,
    origin: Option<RawProducerOrigin>,
    co: Option<RawOriginMap>,
    vo: Option<RawDomainValueOrigins>,
    fps: Seq<RawProducerFingerprint>,
    allow: bool,
) -> Seq<Problem> {
    ctx_value_map_problems(owner, vo) + opt_origin_problems(owner, origin) + context_origin_map_problems(owner, co)
        + fps_problems(owner, fps, fps.len() as int, allow)
}

/// Value origins by context agree with the kept keys by context.
pub open spec fn ctx_origins_lowered(r: StrMap<StrMap<ProducerOrigin>>, m: Map<Seq<char>, Set<Seq<char>>>) -> bool {
    &&& forall|c: Seq<char>| #[trigger] r.has(c) <==> m.dom().contains(c)
    &&& forall|c: Seq<char>| #[trigger] r.has(c) ==> r.spec_get(c)->0.keys().to_set() == m[c]
}

fn lower_ctx_value_origins(
    file: &str,
    source: &[char],
    spans: &mut ManifestSpans,
    diagnostics: &mut Vec<Diagnostic>,
    raw: Vec<(String, RawOriginMap)>,
    owner: &str,
    span: &SourceSpan,
) -> (r: StrMap<StrMap<ProducerOrigin>>)
    ensures
        reported(old(diagnostics)@, final(diagnostics)@, ctx_origin_entries_problems(owner@, raw@, raw@.len() as int)),
        ctx_origins_lowered(r, ctx_origin_keys(raw@, raw@.len() as int)),
        ctx_origins_valued(r, ctx_origin_maps(raw@, raw@.len() as int)),
{
    let ghost es = raw@;
    let ghost start = diagnostics@;
    let mut raw = raw;
    let mut out: StrMap<StrMap<ProducerOrigin>> = StrMap::new();
    let mut i: usize = 0;
    let total = raw.len();
    proof {
        lemma_reported_none(start);
        assert(es.subrange(0, es.len() as int) =~= es);
    }
    while raw.len() > 0
        invariant
            total == es.len(),
            i <= es.len(),
            raw@ == es.subrange(i as int, es.len() as int),
            reported(start, diagnostics@, ctx_origin_entries_problems(owner@, es, i as int)),
            ctx_origins_lowered(out, ctx_origin_keys(es, i as int)),
            ctx_origins_valued(out, ctx_origin_maps(es, i as int)),
        decreases raw@.len(),
    {
        let (context, map) = raw.remove(0);
        let ghost mid = diagnostics@;
        let ghost before = out;
        proof {
            assert((context, map) == es[i as int]);
            assert(raw@ =~= es.subrange(i + 1, es.len() as int));
        }
        if !crate::manifest::validate::is_manifest_name(context.as_str()) {
            report_owner(diagnostics, "diagnostic-schema-001-context-origin-name", owner,
                " provenance context must be an identifier-like name", span);
            proof {
                lemma_reported_trans(start, mid, diagnostics@, ctx_origin_entries_problems(owner@, es, i as int),
                    ctx_origin_entry_problems(owner@, es[i as int]));
            }
        } else {
            let ghost mm = map;
            let lowered = match map {
                RawOriginMap::Entries(x) => {
                    let value_owner = crate::text::concat2(owner, " context value");
                    lower_origin_map_or_empty(file, source, spans, diagnostics, RawOriginMap::Entries(x), value_owner.as_str())
                },
                RawOriginMap::Malformed => {
                    report_owner(diagnostics, "diagnostic-schema-001-contextual-value-origins", owner,
                        " contextual value_origins must map contexts to values", span);
                    let e = StrMap::new();
                    proof {
                        assert(e.keys().to_set() =~= Set::<Seq<char>>::empty());
                    }
                    e
                },
            };
            proof {
                lemma_reported_trans(start, mid, diagnostics@, ctx_origin_entries_problems(owner@, es, i as int),
                    ctx_origin_entry_problems(owner@, es[i as int]));
                assert(lowered.keys().to_set() == origin_map_keys(mm));
            }
            let ghost ck = context@;
            out.insert(context, lowered);
            proof {
                let m = ctx_origin_keys(es, i as int);
                assert(ctx_origin_keys(es, i + 1) == m.insert(ck, origin_map_keys(mm)));
                assert forall|c: Seq<char>| #[trigger] out.has(c) <==> m.insert(ck, origin_map_keys(mm)).dom().contains(c) by {
                    assert(out.keys().to_set().contains(c) == out.has(c));
                    assert(before.keys().to_set().contains(c) == before.has(c));
                }
                assert forall|c: Seq<char>| #[trigger] out.has(c) implies out.spec_get(c)->0.keys().to_set()
                    == m.insert(ck, origin_map_keys(mm))[c] by {
                    if c != ck {
                        assert(before.has(c));
                    }
                }
                let mv = ctx_origin_maps(es, i as int);
                assert(ctx_origin_maps(es, i + 1) == mv.insert(ck, mm));
                assert forall|c: Seq<char>| #[trigger] out.has(c) implies mv.insert(ck, mm).dom().contains(c)
                    && origin_map_values(out.spec_get(c)->0, mv.insert(ck, mm)[c]) by {
                    if c != ck {
                        assert(before.has(c));
                    }
                }
            }
        }
        i = i + 1;
    }
    out
}

/// Lower a contextual domain's provenance.
pub fn lower_contextual_domain_provenance(
    file: &str,
    source: &[char],
    spans: &mut ManifestSpans,
    diagnostics: &mut Vec<Diagnostic>,
    origin: Option<RawProducerOrigin>,
    context_origins: Option<RawOriginMap>,
    value_origins: Option<RawDomainValueOrigins>,
    producer_fingerprints: Vec<RawProducerFingerprint>,
    owner: &str,
    span: &SourceSpan,
    allow: bool,
) -> (r: ContextualMetadataProvenance)
    ensures
        reported(old(diagnostics)@, final(diagnostics)@, contextual_provenance_problems(owner@, origin, context_origins,
            value_origins, producer_fingerprints@, allow)),
        origin_lowered(r.origin, origin),
        r.context_origins.keys().to_set() == context_origin_keys(context_origins),
        ctx_origins_lowered(r.value_origins, ctx_value_keys(value_origins)),
        ctx_origins_valued(r.value_origins, ctx_value_maps(value_origins)),
        opt_origin_map_values(r.context_origins, context_origins),
        fps_lowered(r.producer_fingerprints@, producer_fingerprints@, allow),
{
    let ghost start = diagnostics@;
    let ghost vo = value_origins;
    let ghost co = context_origins;
    let ghost fs = producer_fingerprints@;
    let values = match value_origins {
        None => {
            proof {
                lemma_reported_none(start);
            }
            StrMap::new()
        },
        Some(v) => {
            let RawDomainValueOrigins { flat: _, by_context } = v;
            match by_context {
                RawContextOrigins::Malformed => {
                    report_owner(diagnostics, "diagnostic-schema-001-contextual-value-origins", owner,
                        " contextual value_origins must map contexts to values", span);
                    StrMap::new()
                },
                RawContextOrigins::Entries(es) => lower_ctx_value_origins(file, source, spans, diagnostics, es, owner, span),
            }
        },
    };
    let ghost m1 = diagnostics@;
    let lowered_origin = lower_origin(file, source, spans, diagnostics, origin, owner);
    let ghost m2 = diagnostics@;
    proof {
        if origin is None {
            lemma_reported_none(m1);
        }
    }
    let contexts = match context_origins {
        None => {
            proof {
                lemma_reported_none(m2);
            }
            StrMap::new()
        },
        Some(RawOriginMap::Malformed) => {
            report_owner(diagnostics, "diagnostic-schema-001-context-origins", owner,
                " context_origins must map contexts to origins", span);
            StrMap::new()
        },
        Some(RawOriginMap::Entries(es)) => {
            let context_owner = crate::text::concat2(owner, " context");
            lower_origin_map_or_empty(file, source, spans, diagnostics, RawOriginMap::Entries(es), context_owner.as_str())
        },
    };
    let ghost m3 = diagnostics@;
    proof {
        assert(contexts.keys().to_set() =~= context_origin_keys(co));
    }
    let fps = lower_producer_fingerprints(file, source, spans, diagnostics, producer_fingerprints, owner, allow);
    proof {
        lemma_reported_trans(start, m1, m2, ctx_value_map_problems(owner@, vo), opt_origin_problems(owner@, origin));
        lemma_reported_trans(start, m2, m3, ctx_value_map_problems(owner@, vo) + opt_origin_problems(owner@, origin),
            context_origin_map_problems(owner@, co));
        lemma_reported_trans(start, m3, diagnostics@, ctx_value_map_problems(owner@, vo) + opt_origin_problems(owner@, origin)
            + context_origin_map_problems(owner@, co), fps_problems(owner@, fs, fs.len() as int, allow));
    }
    ContextualMetadataProvenance {
        origin: lowered_origin,
        context_origins: contexts,
        value_origins: values,
        producer_fingerprints: fps,
    }
}

// ---------------------------------------------------------------------------
// Values by context.

/// The problem of a context repeated in a contextual domain.
pub open spec fn repeated_context_problem(domain: Seq<char>, context: Seq<char>) -> Problem {
    problem_with(
        "RECITE_SCHEMA003"@,
        "diagnostic-schema-003-domain-context"@,
        "metadata domain '"@ + domain + "' repeats context '"@ + context + "'"@,
        seq![("domain"@, ArgumentView::Text(domain)), ("context"@, ArgumentView::Text(context))],
    )
}

/// The problems of context `i` of a contextual domain.
pub open spec fn context_entry_problems(domain: Seq<char>, cs: Seq<Named<Vec<String>>>, i: int) -> Seq<Problem> {
    let names = entry_names(cs);
    if !spec_is_manifest_name(names[i]) {
        seq![problem_of(invalid_name_view("metadata domain context"@, arbitrary()))]
    } else if names.take(i).contains(names[i]) {
        seq![repeated_context_problem(domain, names[i])]
    } else {
        value_problems(domain_owner(domain), texts(cs[i].value@))
    }
}

/// The problems of the first `n` contexts of a contextual domain.
pub open spec fn context_values_problems(domain: Seq<char>, cs: Seq<Named<Vec<String>>>, n: int) -> Seq<Problem>
    decreases n,
{
    if n <= 0 {
        Seq::empty()
    } else {
        context_values_problems(domain, cs, n - 1) + context_entry_problems(domain, cs, n - 1)
    }
}

/// The non-empty values of each kept context among the first `n`.
pub open spec fn context_values_map(cs: Seq<Named<Vec<String>>>, n: int) -> Map<Seq<char>, Set<Seq<char>>>
    decreases n,
{
    if n <= 0 {
        Map::empty()
    } else {
        let m = context_values_map(cs, n - 1);
        if is_first_named(entry_names(cs), n - 1) {
            m.insert(cs[n - 1].name@, nonempty_values(texts(cs[n - 1].value@)))
        } else {
            m
        }
    }
}

/// Sets by key agree with a map of sets.
pub open spec fn sets_lowered(r: StrMap<StrSet>, m: Map<Seq<char>, Set<Seq<char>>>) -> bool {
    &&& forall|c: Seq<char>| #[trigger] r.has(c) <==> m.dom().contains(c)
    &&& forall|c: Seq<char>| #[trigger] r.has(c) ==> r.spec_get(c)->0.elem_set() == m[c]
}

/// Lower a contextual domain's values by context: each context with a new
/// schema name gets its non-empty values.
pub fn lower_context_values(
    file: &str,
    source: &[char],
    spans: &mut ManifestSpans,
    diagnostics: &mut Vec<Diagnostic>,
    domain: &str,
    contexts: Vec<Named<Vec<String>>>,
) -> (r: StrMap<StrSet>)
    ensures
        reported(old(diagnostics)@, final(diagnostics)@, context_values_problems(domain@, contexts@, contexts@.len() as int)),
        sets_lowered(r, context_values_map(contexts@, contexts@.len() as int)),
{
    let ghost cs = contexts@;
    let ghost names = entry_names(cs);
    let ghost start = diagnostics@;
    let owner = crate::text::concat3("metadata domain '", domain, "'");
    let mut out: StrMap<StrSet> = StrMap::new();
    let mut seen = StrSet::new();
    let mut i: usize = 0;
    proof {
        lemma_reported_none(start);
    }
    while i < contexts.len()
        invariant
            cs == contexts@,
            names == entry_names(cs),
            owner@ == domain_owner(domain@),
            i <= cs.len(),
            reported(start, diagnostics@, context_values_problems(domain@, cs, i as int)),
            forall|n: Seq<char>| #[trigger] seen.elem_set().contains(n) <==> (spec_is_manifest_name(n) && names.take(i as int).contains(n)),
            sets_lowered(out, context_values_map(cs, i as int)),
        decreases cs.len() - i,
    {
        let entry = &contexts[i];
        let ghost mid = diagnostics@;
        let ghost before = out;
        proof {
            assert(names[i as int] == entry.name@);
            assert(names.take(i + 1) =~= names.take(i as int).push(entry.name@));
        }
        let span = spans.next_string_span(file, source, entry.name.as_str());
        let dup_span = span.copy();
        if !validate_manifest_name(diagnostics, "metadata domain context", entry.name.as_str(), span) {
            proof {
                lemma_reported_push(start, mid, context_values_problems(domain@, cs, i as int), diagnostics@.last(),
                    problem_of(invalid_name_view("metadata domain context"@, arbitrary())));
                assert(diagnostics@ =~= mid.push(diagnostics@.last()));
                assert forall|n: Seq<char>| #[trigger] seen.elem_set().contains(n) <==> (spec_is_manifest_name(n) && names.take(i + 1).contains(n)) by {
                    lemma_push_contains_seq_pub(names.take(i as int), entry.name@, n);
                }
            }
            i = i + 1;
            continue;
        }
        let ghost seen_before = seen;
        proof {
            assert(seen_before.elem_set().contains(entry.name@) == seen_before.elems().contains(entry.name@));
        }
        let fresh = seen.insert(crate::text::copy_string(&entry.name));
        proof {
            assert forall|n: Seq<char>| #[trigger] seen.elem_set().contains(n) <==> (spec_is_manifest_name(n) && names.take(i + 1).contains(n)) by {
                lemma_push_contains_seq_pub(names.take(i as int), entry.name@, n);
            }
        }
        if !fresh {
            let mut message = crate::text::concat3("metadata domain '", domain, "' repeats context '");
            crate::text::push_text(&mut message, entry.name.as_str());
            crate::text::push_text(&mut message, "'");
            let args = vec![text_arg("domain", domain), text_arg("context", entry.name.as_str())];
            proof {
                assert(crate::diagnostics::arguments_view(args@) =~= repeated_context_problem(domain@, entry.name@).arguments);
            }
            report(diagnostics, crate::diagnostics::duplicate_definition_code(), "diagnostic-schema-003-domain-context", message, dup_span, args);
            proof {
                lemma_reported_trans(start, mid, diagnostics@, context_values_problems(domain@, cs, i as int),
                    context_entry_problems(domain@, cs, i as int));
            }
            i = i + 1;
            continue;
        }
        let values = canonical_string_values_at(spans, file, source, diagnostics, owner.as_str(), &entry.value);
        proof {
            lemma_reported_trans(start, mid, diagnostics@, context_values_problems(domain@, cs, i as int),
                context_entry_problems(domain@, cs, i as int));
            assert(is_first_named(names, i as int));
        }
        out.insert(crate::text::copy_string(&entry.name), values);
        proof {
            let m = context_values_map(cs, i as int);
            let v = nonempty_values(texts(cs[i as int].value@));
            assert(context_values_map(cs, i + 1) == m.insert(entry.name@, v));
            assert forall|c: Seq<char>| #[trigger] out.has(c) <==> m.insert(entry.name@, v).dom().contains(c) by {
                assert(out.keys().to_set().contains(c) == out.has(c));
                assert(before.keys().to_set().contains(c) == before.has(c));
            }
            assert forall|c: Seq<char>| #[trigger] out.has(c) implies out.spec_get(c)->0.elem_set() == m.insert(entry.name@, v)[c] by {
                if c != entry.name@ {
                    assert(before.has(c));
                }
            }
        }
        i = i + 1;
    }
    out
}

/// The set of a map's keys.
pub fn key_set<V>(m: &StrMap<V>) -> (r: StrSet)
    ensures
        r.elem_set() == m.keys().to_set(),
{
    let mut out = StrSet::new();
    let mut i: usize = 0;
    proof {
        assert(out.elem_set() =~= m.keys().take(0).to_set());
    }
    while i < m.len()
        invariant
            i <= m.keys().len(),
            out.elem_set() == m.keys().take(i as int).to_set(),
        decreases m.keys().len() - i,
    {
        let key = &m.entry_at(i).0;
        proof {
            assert(m.keys()[i as int] == key@);
            assert(m.keys().take(i + 1) =~= m.keys().take(i as int).push(key@));
        }
        out.insert(crate::text::copy_string(key));
        proof {
            assert forall|x: Seq<char>| out.elem_set().contains(x) <==> m.keys().take(i + 1).to_set().contains(x) by {
                assert(out.elem_set().contains(x) == out.elems().contains(x));
                lemma_push_contains_seq_pub(m.keys().take(i as int), key@, x);
            }
            assert(out.elem_set() =~= m.keys().take(i + 1).to_set());
        }
        i = i + 1;
    }
    proof {
        assert(m.keys().take(m.keys().len() as int) =~= m.keys());
    }
    out
}

/// `metadata domain '<domain>' context '<context>'`.
pub open spec fn context_owner(domain: Seq<char>, context: Seq<char>) -> Seq<char> {
    domain_owner(domain) + " context '"@ + context + "'"@
}

/// The problems of the value keys of the first `n` contexts in `ks` that have values.
pub open spec fn ctx_value_key_problems(
    domain: Seq<char>,
    vals: Map<Seq<char>, Set<Seq<char>>>,
    m: Map<Seq<char>, Set<Seq<char>>>,
    ks: Seq<Seq<char>>,
    n: int,
) -> Seq<Problem>
    decreases n,
{
    if n <= 0 {
        Seq::empty()
    } else {
        let k = ks[n - 1];
        let keys = sorted_texts_of(m[k]);
        ctx_value_key_problems(domain, vals, m, ks, n - 1) + if vals.dom().contains(k) {
            unknown_keys_problems(context_owner(domain, k), vals[k], keys, keys.len() as int)
        } else {
            Seq::empty()
        }
    }
}

/// Report, for each context with values, the value origins that name no value of it.
pub fn validate_context_value_keys(
    file: &str,
    source: &[char],
    spans: &mut ManifestSpans,
    diagnostics: &mut Vec<Diagnostic>,
    domain: &str,
    values_by_context: &StrMap<StrSet>,
    value_origins: &StrMap<StrMap<ProducerOrigin>>,
    Ghost(vals): Ghost<Map<Seq<char>, Set<Seq<char>>>>,
    Ghost(m): Ghost<Map<Seq<char>, Set<Seq<char>>>>,
)
    requires
        sets_lowered(*values_by_context, vals),
        ctx_origins_lowered(*value_origins, m),
    ensures
        reported(old(diagnostics)@, final(diagnostics)@, ctx_value_key_problems(domain@, vals, m, value_origins.keys(),
            value_origins.keys().len() as int)),
{
    let ghost start = diagnostics@;
    let ghost ks = value_origins.keys();
    let mut i: usize = 0;
    proof {
        lemma_reported_none(start);
    }
    while i < value_origins.len()
        invariant
            ks == value_origins.keys(),
            i <= ks.len(),
            sets_lowered(*values_by_context, vals),
            ctx_origins_lowered(*value_origins, m),
            reported(start, diagnostics@, ctx_value_key_problems(domain@, vals, m, ks, i as int)),
        decreases ks.len() - i,
    {
        let entry = value_origins.entry_at(i);
        let ghost mid = diagnostics@;
        value_origins.proof_sorted();
        proof {
            assert(ks[i as int] == entry.0@);
            crate::order::lemma_sorted_index_of(ks, i as int);
            assert(value_origins.has(entry.0@));
            assert(value_origins.spec_get(entry.0@) == Some(entry.1));
        }
        match values_by_context.get(entry.0.as_str()) {
            Some(values) => {
                entry.1.proof_sorted();
                proof {
                    crate::order::lemma_sorted_texts_of(entry.1.keys());
                    assert(values.elem_set() == vals[entry.0@]);
                }
                let owner = crate::text::concat3("metadata domain '", domain, "' context '");
                let mut owner = owner;
                crate::text::push_text(&mut owner, entry.0.as_str());
                crate::text::push_text(&mut owner, "'");
                validate_origin_keys(file, source, spans, diagnostics, owner.as_str(), values, &entry.1);
                proof {
                    reveal_strlit("' context '");
                    reveal_strlit("'");
                    reveal_strlit(" context '");
                    assert(owner@ =~= context_owner(domain@, entry.0@));
                    lemma_reported_trans(start, mid, diagnostics@, ctx_value_key_problems(domain@, vals, m, ks, i as int),
                        unknown_keys_problems(context_owner(domain@, entry.0@), vals[entry.0@], entry.1.keys(), entry.1.keys().len() as int));
                }
            },
            None => {
                proof {
                    assert(ctx_value_key_problems(domain@, vals, m, ks, i + 1) =~= ctx_value_key_problems(domain@, vals, m, ks, i as int));
                }
            },
        }
        i = i + 1;
    }
}

// ---------------------------------------------------------------------------
// One domain entry.

/// A problem about a domain, with the domain's name as its one argument.
pub open spec fn domain_problem(id: Seq<char>, name: Seq<char>, suffix: Seq<char>) -> Problem {
    shape_problem(id, "metadata domain '"@ + name + suffix, seq![("domain"@, ArgumentView::Text(name))])
}

fn report_domain(diagnostics: &mut Vec<Diagnostic>, id: &str, name: &str, suffix: &str, span: &SourceSpan)
    ensures
        reported(old(diagnostics)@, final(diagnostics)@, seq![domain_problem(id@, name@, suffix@)]),
{
    let message = crate::text::concat3("metadata domain '", name, suffix);
    let args = vec![text_arg("domain", name)];
    proof {
        assert(crate::diagnostics::arguments_view(args@) =~= seq![("domain"@, ArgumentView::Text(name@))]);
    }
    report(diagnostics, crate::diagnostics::malformed_shape(), id, message, span.copy(), args);
}

/// A problem about a domain and one of its members.
pub open spec fn domain_member_problem(id: Seq<char>, name: Seq<char>, what: Seq<char>, arg: Seq<char>, value: Seq<char>) -> Problem {
    shape_problem(
        id,
        "metadata domain '"@ + name + "' uses unsupported "@ + what + " '"@ + value + "'"@,
        seq![("domain"@, ArgumentView::Text(name)), (arg, ArgumentView::Text(value))],
    )
}

/// The fields of a raw domain that its kind does not allow.
pub open spec fn domain_wrong_fields(r: RawMetadataDomainDefinition) -> Seq<Seq<char>> {
    wrong_kind_fields(r.kind@, r.values is Some, r.selector is Some, r.values_by_context is Some,
        r.missing_context is Some, r.context_origins is Some)
}

/// A contextual domain has what it needs: a missing-context policy, a
/// supported selector and values by context.
pub open spec fn contextual_complete(r: RawMetadataDomainDefinition) -> bool {
    &&& r.missing_context is Some
    &&& r.selector is Some
    &&& context_selector_of(r.selector->0@) is Some
    &&& r.values_by_context is Some
}

/// The problems of a complete flat domain.
pub open spec fn flat_domain_problems(name: Seq<char>, r: RawMetadataDomainDefinition, allow: bool) -> Seq<Problem> {
    let owner = domain_owner(name);
    let vs = texts(r.values->0@);
    let keys = sorted_texts_of(flat_value_keys(r.value_origins));
    value_problems(owner, vs) + flat_provenance_problems(owner, r.origin, r.value_origins, r.producer_fingerprints@, allow)
        + unknown_keys_problems(owner, nonempty_values(vs), keys, keys.len() as int)
}

/// The problems of a complete contextual domain.
pub open spec fn contextual_domain_problems(name: Seq<char>, r: RawMetadataDomainDefinition, allow: bool) -> Seq<Problem> {
    let owner = domain_owner(name);
    let cs = r.values_by_context->0@;
    let vals = context_values_map(cs, cs.len() as int);
    let ck = sorted_texts_of(context_origin_keys(r.context_origins));
    let m = ctx_value_keys(r.value_origins);
    let vk = sorted_texts_of(m.dom());
    context_values_problems(name, cs, cs.len() as int) + policy_problems(name, r.missing_context)
        + contextual_provenance_problems(owner, r.origin, r.context_origins, r.value_origins, r.producer_fingerprints@, allow)
        + unknown_keys_problems(owner, vals.dom(), ck, ck.len() as int)
        + unknown_keys_problems(owner + " context"@, vals.dom(), vk, vk.len() as int)
        + ctx_value_key_problems(name, vals, m, vk, vk.len() as int)
}

/// The problems of a domain entry with a new schema name.
pub open spec fn domain_entry_problems(name: Seq<char>, r: RawMetadataDomainDefinition, allow: bool) -> Seq<Problem> {
    let wrong = domain_wrong_fields(r);
    if wrong.len() > 0 {
        kind_field_problems(name, wrong, r.kind@)
    } else if r.kind@ == "flat"@ {
        if r.values is None {
            seq![domain_problem("diagnostic-schema-001-domain-values"@, name, "' requires values"@)]
        } else {
            flat_domain_problems(name, r, allow)
        }
    } else if r.kind@ == "contextual"@ {
        if r.missing_context is None {
            seq![domain_problem("diagnostic-schema-001-domain-missing-context"@, name,
                "' requires explicit missing_context in generated JSON"@)]
        } else if r.selector is None {
            seq![domain_problem("diagnostic-schema-001-domain-selector-required"@, name, "' requires selector"@)]
        } else if context_selector_of(r.selector->0@) is None {
            seq![domain_member_problem("diagnostic-schema-001-domain-selector"@, name, "selector"@, "selector"@, r.selector->0@)]
        } else if r.values_by_context is None {
            seq![domain_problem("diagnostic-schema-001-domain-context-values"@, name, "' requires values_by_context"@)]
        } else {
            contextual_domain_problems(name, r, allow)
        }
    } else {
        seq![domain_member_problem("diagnostic-schema-001-domain-kind"@, name, "kind"@, "kind"@, r.kind@)]
    }
}

/// A domain entry with a new schema name becomes a domain.
pub open spec fn domain_kept(r: RawMetadataDomainDefinition) -> bool {
    &&& domain_wrong_fields(r).len() == 0
    &&& ((r.kind@ == "flat"@ && r.values is Some) || (r.kind@ == "contextual"@ && contextual_complete(r)))
}

/// The domain references a domain entry leaves to check.
pub open spec fn domain_entry_refs(name: Seq<char>, r: RawMetadataDomainDefinition) -> Seq<(Seq<char>, Seq<char>, bool)> {
    if domain_wrong_fields(r).len() == 0 && r.kind@ == "contextual"@ && contextual_complete(r) {
        policy_domain_refs(name, r.missing_context)
    } else {
        Seq::empty()
    }
}

/// The domain a kept domain entry lowers to.
pub open spec fn domain_lowered(d: MetadataDomainDefinition, r: RawMetadataDomainDefinition, allow: bool) -> bool {
    match d {
        MetadataDomainDefinition::Flat(f) => {
            &&& r.kind@ == "flat"@
            &&& f.values.elem_set() == nonempty_values(texts(r.values->0@))
            &&& origin_lowered(f.provenance.origin, r.origin)
            &&& f.provenance.value_origins.keys().to_set() == flat_value_keys(r.value_origins)
            &&& opt_origin_map_values(f.provenance.value_origins, flat_origin_map(r.value_origins))
            &&& fps_lowered(f.provenance.producer_fingerprints@, r.producer_fingerprints@, allow)
        },
        MetadataDomainDefinition::Contextual(c) => {
            let cs = r.values_by_context->0@;
            &&& r.kind@ == "contextual"@
            &&& context_selector_of(r.selector->0@) == Some(selector_view(c.selector))
            &&& sets_lowered(c.values_by_context, context_values_map(cs, cs.len() as int))
            &&& policy_view(c.missing_context) == policy_of(r.missing_context)
            &&& origin_lowered(c.provenance.origin, r.origin)
            &&& c.provenance.context_origins.keys().to_set() == context_origin_keys(r.context_origins)
            &&& ctx_origins_lowered(c.provenance.value_origins, ctx_value_keys(r.value_origins))
            &&& ctx_origins_valued(c.provenance.value_origins, ctx_value_maps(r.value_origins))
            &&& opt_origin_map_values(c.provenance.context_origins, r.context_origins)
            &&& fps_lowered(c.provenance.producer_fingerprints@, r.producer_fingerprints@, allow)
        },
    }
}

fn lower_flat_domain(
    file: &str,
    source: &[char],
    spans: &mut ManifestSpans,
    diagnostics: &mut Vec<Diagnostic>,
    name: &str,
    name_span: &SourceSpan,
    raw: RawMetadataDomainDefinition,
    allow: bool,
) -> (r: MetadataDomainDefinition)
    requires
        raw.kind@ == "flat"@,
        raw.values is Some,
    ensures
        reported(old(diagnostics)@, final(diagnostics)@, flat_domain_problems(name@, raw, allow)),
        domain_lowered(r, raw, allow),
{
    let ghost r0 = raw;
    let ghost start = diagnostics@;
    let owner = crate::text::concat3("metadata domain '", name, "'");
    let RawMetadataDomainDefinition {
        kind: _,
        values,
        selector: _,
        values_by_context: _,
        missing_context: _,
        origin,
        value_origins,
        context_origins: _,
        producer_fingerprints,
    } = raw;
    let values = match values {
        Some(v) => v,
        None => Vec::new(),
    };
    let lowered_values = canonical_string_values_at(spans, file, source, diagnostics, owner.as_str(), &values);
    let ghost m1 = diagnostics@;
    let provenance = lower_flat_domain_provenance(file, source, spans, diagnostics, origin, value_origins,
        producer_fingerprints, owner.as_str(), name_span, allow);
    let ghost m2 = diagnostics@;
    provenance.value_origins.proof_sorted();
    proof {
        crate::order::lemma_sorted_texts_of(provenance.value_origins.keys());
    }
    validate_origin_keys(file, source, spans, diagnostics, owner.as_str(), &lowered_values, &provenance.value_origins);
    proof {
        let vs = texts(r0.values->0@);
        let keys = sorted_texts_of(flat_value_keys(r0.value_origins));
        lemma_reported_trans(start, m1, m2, value_problems(owner@, vs),
            flat_provenance_problems(owner@, r0.origin, r0.value_origins, r0.producer_fingerprints@, allow));
        lemma_reported_trans(start, m2, diagnostics@, value_problems(owner@, vs)
            + flat_provenance_problems(owner@, r0.origin, r0.value_origins, r0.producer_fingerprints@, allow),
            unknown_keys_problems(owner@, nonempty_values(vs), keys, keys.len() as int));
    }
    MetadataDomainDefinition::Flat(FlatMetadataDomain { values: lowered_values, provenance })
}

#[verifier::rlimit(40)]
fn lower_contextual_domain(
    file: &str,
    source: &[char],
    spans: &mut ManifestSpans,
    diagnostics: &mut Vec<Diagnostic>,
    pending_domain_refs: &mut Vec<PendingDomainReference>,
    name: &str,
    name_span: &SourceSpan,
    raw: RawMetadataDomainDefinition,
    selector: crate::model::MetadataContextSelector,
    allow: bool,
) -> (r: MetadataDomainDefinition)
    requires
        raw.kind@ == "contextual"@,
        contextual_complete(raw),
        context_selector_of(raw.selector->0@) == Some(selector_view(selector)),
    ensures
        reported(old(diagnostics)@, final(diagnostics)@, contextual_domain_problems(name@, raw, allow)),
        domain_refs_view(final(pending_domain_refs)@) == domain_refs_view(old(pending_domain_refs)@)
            + policy_domain_refs(name@, raw.missing_context),
        domain_refs_extend(old(pending_domain_refs)@, final(pending_domain_refs)@),
        domain_lowered(r, raw, allow),
{
    let ghost r0 = raw;
    let ghost start = diagnostics@;
    let owner = crate::text::concat3("metadata domain '", name, "'");
    let RawMetadataDomainDefinition {
        kind: _,
        values: _,
        selector: _,
        values_by_context,
        missing_context,
        origin,
        value_origins,
        context_origins,
        producer_fingerprints,
    } = raw;
    let contexts = match values_by_context {
        Some(c) => c,
        None => Vec::new(),
    };
    let ghost cs = contexts@;
    let values = lower_context_values(file, source, spans, diagnostics, name, contexts);
    let ghost m1 = diagnostics@;
    let policy = lower_missing_context(file, source, spans, name, missing_context, diagnostics, pending_domain_refs);
    let ghost m2 = diagnostics@;
    let provenance = lower_contextual_domain_provenance(file, source, spans, diagnostics, origin, context_origins,
        value_origins, producer_fingerprints, owner.as_str(), name_span, allow);
    let ghost m3 = diagnostics@;
    let ghost vals = context_values_map(cs, cs.len() as int);
    let ghost m = ctx_value_keys(r0.value_origins);
    let allowed = key_set(&values);
    provenance.context_origins.proof_sorted();
    provenance.value_origins.proof_sorted();
    proof {
        assert(allowed.elem_set() =~= vals.dom()) by {
            assert forall|c: Seq<char>| allowed.elem_set().contains(c) <==> vals.dom().contains(c) by {
                assert(values.keys().to_set().contains(c) == values.has(c));
            }
        }
        assert(provenance.value_origins.keys().to_set() =~= m.dom()) by {
            assert forall|c: Seq<char>| provenance.value_origins.keys().to_set().contains(c) <==> m.dom().contains(c) by {
                assert(provenance.value_origins.keys().to_set().contains(c) == provenance.value_origins.has(c));
            }
        }
        crate::order::lemma_sorted_texts_of(provenance.context_origins.keys());
        crate::order::lemma_sorted_texts_of(provenance.value_origins.keys());
    }
    validate_origin_keys(file, source, spans, diagnostics, owner.as_str(), &allowed, &provenance.context_origins);
    let ghost m4 = diagnostics@;
    let context_owner_text = crate::text::concat2(owner.as_str(), " context");
    validate_origin_keys(file, source, spans, diagnostics, context_owner_text.as_str(), &allowed, &provenance.value_origins);
    let ghost m5 = diagnostics@;
    validate_context_value_keys(file, source, spans, diagnostics, name, &values, &provenance.value_origins, Ghost(vals), Ghost(m));
    proof {
        let owner_v = domain_owner(name@);
        let ck = sorted_texts_of(context_origin_keys(r0.context_origins));
        let vk = sorted_texts_of(m.dom());
        let p1 = context_values_problems(name@, cs, cs.len() as int);
        let p2 = policy_problems(name@, r0.missing_context);
        let p3 = contextual_provenance_problems(owner_v, r0.origin, r0.context_origins, r0.value_origins, r0.producer_fingerprints@, allow);
        let p4 = unknown_keys_problems(owner_v, vals.dom(), ck, ck.len() as int);
        let p5 = unknown_keys_problems(owner_v + " context"@, vals.dom(), vk, vk.len() as int);
        let p6 = ctx_value_key_problems(name@, vals, m, vk, vk.len() as int);
        assert(owner@ == owner_v);
        lemma_reported_trans(start, m1, m2, p1, p2);
        lemma_reported_trans(start, m2, m3, p1 + p2, p3);
        lemma_reported_trans(start, m3, m4, p1 + p2 + p3, p4);
        lemma_reported_trans(start, m4, m5, p1 + p2 + p3 + p4, p5);
        lemma_reported_trans(start, m5, diagnostics@, p1 + p2 + p3 + p4 + p5, p6);
    }
    MetadataDomainDefinition::Contextual(ContextualMetadataDomain {
        selector,
        values_by_context: values,
        missing_context: policy,
        provenance,
    })
}

/// Lower one domain entry whose name is a new schema name.
pub fn lower_domain_entry(
    file: &str,
    source: &[char],
    spans: &mut ManifestSpans,
    diagnostics: &mut Vec<Diagnostic>,
    pending_domain_refs: &mut Vec<PendingDomainReference>,
    name: &str,
    name_span: &SourceSpan,
    raw: RawMetadataDomainDefinition,
    allow: bool,
) -> (r: Option<MetadataDomainDefinition>)
    ensures
        reported(old(diagnostics)@, final(diagnostics)@, domain_entry_problems(name@, raw, allow)),
        domain_refs_view(final(pending_domain_refs)@) == domain_refs_view(old(pending_domain_refs)@) + domain_entry_refs(name@, raw),
        domain_refs_extend(old(pending_domain_refs)@, final(pending_domain_refs)@),
        r is Some <==> domain_kept(raw),
        r matches Some(d) ==> domain_lowered(d, raw, allow),
{
    let ghost r0 = raw;
    let ghost pstart = pending_domain_refs@;
    let ghost start = diagnostics@;
    proof {
        reveal_strlit("flat");
        reveal_strlit("contextual");
        assert(domain_refs_view(pstart) + Seq::<(Seq<char>, Seq<char>, bool)>::empty() =~= domain_refs_view(pstart));
        assert(pstart.subrange(0, pstart.len() as int) =~= pstart);
    }
    if !validate_domain_kind_fields(
        diagnostics,
        raw.kind.as_str(),
        raw.values.is_some(),
        raw.selector.is_some(),
        raw.values_by_context.is_some(),
        raw.missing_context.is_some(),
        raw.context_origins.is_some(),
        name,
        name_span,
    ) {
        return None;
    }
    proof {
        assert(kind_field_problems(name@, domain_wrong_fields(r0), r0.kind@) =~= Seq::<Problem>::empty());
        assert(diagnostics@ =~= start.subrange(0, start.len() as int));
        assert(diagnostics@ =~= start);
    }
    if crate::text::str_eq(raw.kind.as_str(), "flat") {
        if raw.values.is_none() {
            report_domain(diagnostics, "diagnostic-schema-001-domain-values", name, "' requires values", name_span);
            return None;
        }
        Some(lower_flat_domain(file, source, spans, diagnostics, name, name_span, raw, allow))
    } else if crate::text::str_eq(raw.kind.as_str(), "contextual") {
        if raw.missing_context.is_none() {
            report_domain(diagnostics, "diagnostic-schema-001-domain-missing-context", name,
                "' requires explicit missing_context in generated JSON", name_span);
            return None;
        }
        let selector = match &raw.selector {
            None => {
                report_domain(diagnostics, "diagnostic-schema-001-domain-selector-required", name, "' requires selector", name_span);
                return None;
            },
            Some(text) => {
                let selector_span = spans.next_string_span(file, source, text.as_str());
                match parse_metadata_context_selector(text.as_str()) {
                    Some(sel) => sel,
                    None => {
                        let mut message = crate::text::concat3("metadata domain '", name, "' uses unsupported selector '");
                        crate::text::push_text(&mut message, text.as_str());
                        crate::text::push_text(&mut message, "'");
                        let args = vec![text_arg("domain", name), text_arg("selector", text.as_str())];
                        proof {
                            reveal_strlit("' uses unsupported ");
                            reveal_strlit("selector");
                            reveal_strlit(" '");
                            reveal_strlit("' uses unsupported selector '");
                            let p = domain_member_problem("diagnostic-schema-001-domain-selector"@, name@, "selector"@, "selector"@, text@);
                            assert(crate::diagnostics::arguments_view(args@) =~= p.arguments);
                            assert(message@ =~= p.message);
                        }
                        report(diagnostics, crate::diagnostics::malformed_shape(), "diagnostic-schema-001-domain-selector", message, selector_span, args);
                        return None;
                    },
                }
            },
        };
        if raw.values_by_context.is_none() {
            report_domain(diagnostics, "diagnostic-schema-001-domain-context-values", name, "' requires values_by_context", name_span);
            return None;
        }
        Some(lower_contextual_domain(file, source, spans, diagnostics, pending_domain_refs, name, name_span, raw, selector, allow))
    } else {
        let kind_span = spans.next_string_span(file, source, raw.kind.as_str());
        let mut message = crate::text::concat3("metadata domain '", name, "' uses unsupported kind '");
        crate::text::push_text(&mut message, raw.kind.as_str());
        crate::text::push_text(&mut message, "'");
        let args = vec![text_arg("domain", name), text_arg("kind", raw.kind.as_str())];
        proof {
            reveal_strlit("' uses unsupported ");
            reveal_strlit("kind");
            reveal_strlit(" '");
            reveal_strlit("' uses unsupported kind '");
            let p = domain_member_problem("diagnostic-schema-001-domain-kind"@, name@, "kind"@, "kind"@, r0.kind@);
            assert(crate::diagnostics::arguments_view(args@) =~= p.arguments);
            assert(message@ =~= p.message);
        }
        report(diagnostics, crate::diagnostics::malformed_shape(), "diagnostic-schema-001-domain-kind", message, kind_span, args);
        None
    }
}

// ---------------------------------------------------------------------------
// The section.

/// The problems reported for domain entry `i`.
pub open spec fn domains_entry_problems(es: Seq<Named<RawMetadataDomainDefinition>>, i: int, allow: bool) -> Seq<Problem> {
    let names = entry_names(es);
    if !is_first_named(names, i) {
        name_problems(names, i, "metadata domain name"@, "metadata domain"@)
    } else {
        domain_entry_problems(es[i].name@, es[i].value, allow)
    }
}

/// The problems reported for the first `n` domain entries, in order.
pub open spec fn domains_problems(es: Seq<Named<RawMetadataDomainDefinition>>, n: int, allow: bool) -> Seq<Problem>
    decreases n,
{
    if n <= 0 {
        Seq::empty()
    } else {
        domains_problems(es, n - 1, allow) + domains_entry_problems(es, n - 1, allow)
    }
}

/// The domain references the first `n` domain entries leave to check.
pub open spec fn domains_refs(es: Seq<Named<RawMetadataDomainDefinition>>, n: int) -> Seq<(Seq<char>, Seq<char>, bool)>
    decreases n,
{
    if n <= 0 {
        Seq::empty()
    } else {
        domains_refs(es, n - 1) + if is_first_named(entry_names(es), n - 1) {
            domain_entry_refs(es[n - 1].name@, es[n - 1].value)
        } else {
            Seq::empty()
        }
    }
}

/// Domain entry `i` becomes a domain.
pub open spec fn domain_entry_kept(es: Seq<Named<RawMetadataDomainDefinition>>, i: int) -> bool {
    is_first_named(entry_names(es), i) && domain_kept(es[i].value)
}

/// All fields of two schemas but the metadata domains agree.
pub open spec fn same_but_domains(a: ProjectSchema, b: ProjectSchema) -> bool {
    &&& a.schema_version == b.schema_version
    &&& a.types == b.types
    &&& a.registries == b.registries
    &&& a.speakers == b.speakers
    &&& a.conditions == b.conditions
    &&& a.availability_reasons == b.availability_reasons
    &&& a.effects == b.effects
    &&& a.metadata == b.metadata
    &&& a.projection_queries == b.projection_queries
    &&& a.presentation_projectors == b.presentation_projectors
    &&& a.markup == b.markup
    &&& a.producer_metadata == b.producer_metadata
}

/// Lower the `metadata_domains` section: each entry with a new schema name
/// whose kind and members agree becomes a flat or contextual domain.
pub fn lower_metadata_domains(
    file: &str,
    source: &[char],
    spans: &mut ManifestSpans,
    entries: Vec<Named<RawMetadataDomainDefinition>>,
    schema: &mut ProjectSchema,
    diagnostics: &mut Vec<Diagnostic>,
    pending_domain_refs: &mut Vec<PendingDomainReference>,
    allow_duplicate_fingerprints: bool,
)
    ensures
        reported(old(diagnostics)@, final(diagnostics)@, domains_problems(entries@, entries@.len() as int, allow_duplicate_fingerprints)),
        domain_refs_view(final(pending_domain_refs)@) == domain_refs_view(old(pending_domain_refs)@) + domains_refs(entries@, entries@.len() as int),
        domain_refs_extend(old(pending_domain_refs)@, final(pending_domain_refs)@),
        same_but_domains(*old(schema), *final(schema)),
        forall|n: Seq<char>| #[trigger] final(schema).metadata_domains.has(n) <==> (old(schema).metadata_domains.has(n)
            || exists|i: int| 0 <= i < entries@.len() && domain_entry_kept(entries@, i) && entries@[i].name@ == n),
        forall|i: int| 0 <= i < entries@.len() && #[trigger] domain_entry_kept(entries@, i) ==> (
            final(schema).metadata_domains.spec_get(entries@[i].name@) matches Some(d)
                && domain_lowered(d, entries@[i].value, allow_duplicate_fingerprints)),
        forall|n: Seq<char>| #[trigger] old(schema).metadata_domains.has(n) && !(exists|i: int| 0 <= i < entries@.len()
            && domain_entry_kept(entries@, i) && entries@[i].name@ == n)
            ==> final(schema).metadata_domains.spec_get(n) == old(schema).metadata_domains.spec_get(n),
{
    let ghost es = entries@;
    let ghost names = entry_names(es);
    let ghost start = diagnostics@;
    let ghost dstart = pending_domain_refs@;
    let ghost s0 = *schema;
    let ghost allow = allow_duplicate_fingerprints;
    let mut entries = entries;
    let mut seen = StrSet::new();
    let mut i: usize = 0;
    proof {
        lemma_reported_none(start);
        assert(es.subrange(0, es.len() as int) =~= es);
        assert(domain_refs_view(dstart) + domains_refs(es, 0) =~= domain_refs_view(dstart));
        assert(dstart.subrange(0, dstart.len() as int) =~= dstart);
    }
    let total = entries.len();
    while entries.len() > 0
        invariant
            total == es.len(),
            names == entry_names(es),
            allow == allow_duplicate_fingerprints,
            i <= es.len(),
            entries@ == es.subrange(i as int, es.len() as int),
            same_but_domains(s0, *schema),
            reported(start, diagnostics@, domains_problems(es, i as int, allow)),
            domain_refs_view(pending_domain_refs@) == domain_refs_view(dstart) + domains_refs(es, i as int),
            domain_refs_extend(dstart, pending_domain_refs@),
            forall|n: Seq<char>| #[trigger] seen.elem_set().contains(n) <==> (spec_is_manifest_name(n) && names.take(i as int).contains(n)),
            forall|n: Seq<char>| #[trigger] schema.metadata_domains.has(n) <==> (s0.metadata_domains.has(n)
                || exists|j: int| 0 <= j < i && domain_entry_kept(es, j) && es[j].name@ == n),
            forall|j: int| 0 <= j < i && #[trigger] domain_entry_kept(es, j) ==> (schema.metadata_domains.spec_get(es[j].name@) matches Some(d)
                && domain_lowered(d, es[j].value, allow)),
            forall|n: Seq<char>| #[trigger] s0.metadata_domains.has(n) && !(exists|j: int| 0 <= j < i
                && domain_entry_kept(es, j) && es[j].name@ == n)
                ==> schema.metadata_domains.spec_get(n) == s0.metadata_domains.spec_get(n),
        decreases entries@.len(),
    {
        let entry = entries.remove(0);
        let ghost mid = diagnostics@;
        let ghost dmid = pending_domain_refs@;
        proof {
            assert(entry == es[i as int]);
            assert(entries@ =~= es.subrange(i + 1, es.len() as int));
            assert(names[i as int] == entry.name@);
            assert(names.take(i + 1) =~= names.take(i as int).push(entry.name@));
        }
        let name_span = spans.next_string_span(file, source, entry.name.as_str());
        let dup_span = name_span.copy();
        if !validate_manifest_name(diagnostics, "metadata domain name", entry.name.as_str(), name_span.copy()) {
            proof {
                lemma_reported_push(start, mid, domains_problems(es, i as int, allow), diagnostics@.last(), problem_of(invalid_name_view("metadata domain name"@, arbitrary())));
                assert(diagnostics@ =~= mid.push(diagnostics@.last()));
                assert forall|n: Seq<char>| #[trigger] seen.elem_set().contains(n) <==> (spec_is_manifest_name(n) && names.take(i + 1).contains(n)) by {
                    lemma_push_contains_seq_pub(names.take(i as int), entry.name@, n);
                }
                assert(domains_refs(es, i + 1) =~= domains_refs(es, i as int));
            }
            i = i + 1;
            continue;
        }
        let ghost seen_before = seen;
        proof {
            assert(seen_before.elem_set().contains(entry.name@) == seen_before.elems().contains(entry.name@));
        }
        let fresh = seen.insert(crate::text::copy_string(&entry.name));
        proof {
            assert forall|n: Seq<char>| #[trigger] seen.elem_set().contains(n) <==> (spec_is_manifest_name(n) && names.take(i + 1).contains(n)) by {
                lemma_push_contains_seq_pub(names.take(i as int), entry.name@, n);
            }
        }
        if !fresh {
            duplicate_definition(diagnostics, "metadata domain", entry.name.as_str(), dup_span);
            proof {
                lemma_reported_push(start, mid, domains_problems(es, i as int, allow), diagnostics@.last(), problem_of(duplicate_view("metadata domain"@, entry.name@, arbitrary())));
                assert(diagnostics@ =~= mid.push(diagnostics@.last()));
                assert(domains_refs(es, i + 1) =~= domains_refs(es, i as int));
            }
            i = i + 1;
            continue;
        }
        proof {
            assert(is_first_named(names, i as int));
        }
        let Named { name, value } = entry;
        let lowered = lower_domain_entry(file, source, spans, diagnostics, pending_domain_refs, name.as_str(), &name_span, value, allow_duplicate_fingerprints);
        proof {
            lemma_reported_trans(start, mid, diagnostics@, domains_problems(es, i as int, allow), domains_entry_problems(es, i as int, allow));
            assert(domains_refs(es, i + 1) =~= domains_refs(es, i as int) + domain_entry_refs(es[i as int].name@, es[i as int].value));
            assert(domain_refs_view(pending_domain_refs@) =~= domain_refs_view(dstart) + domains_refs(es, i + 1));
            lemma_domain_refs_extend_trans(dstart, dmid, pending_domain_refs@);
        }
        match lowered {
            None => {
                proof {
                    assert(!domain_entry_kept(es, i as int));
                }
            },
            Some(definition) => {
                let ghost before = *schema;
                let ghost nk = name@;
                schema.metadata_domains.insert(name, definition);
                proof {
                    assert forall|n: Seq<char>| #[trigger] s0.metadata_domains.has(n) && !(exists|j: int| 0 <= j < i + 1
                        && domain_entry_kept(es, j) && es[j].name@ == n)
                        implies schema.metadata_domains.spec_get(n) == s0.metadata_domains.spec_get(n) by {
                        if n == nk {
                            assert(domain_entry_kept(es, i as int) && es[i as int].name@ == n);
                        }
                    }
                    assert(domain_entry_kept(es, i as int));
                    assert forall|j: int| 0 <= j < i + 1 && #[trigger] domain_entry_kept(es, j) implies (schema.metadata_domains.spec_get(es[j].name@) matches Some(d)
                        && domain_lowered(d, es[j].value, allow)) by {
                        if j < i {
                            if names[j] == names[i as int] {
                                assert(names.take(i as int)[j] == names[i as int]);
                            }
                            assert(names[j] == es[j].name@);
                        }
                    }
                    assert forall|n: Seq<char>| #[trigger] schema.metadata_domains.has(n) <==> (s0.metadata_domains.has(n)
                        || exists|j: int| 0 <= j < i + 1 && domain_entry_kept(es, j) && es[j].name@ == n) by {
                        assert(schema.metadata_domains.keys().to_set().contains(n) == schema.metadata_domains.has(n));
                        assert(before.metadata_domains.keys().to_set().contains(n) == before.metadata_domains.has(n));
                        if n == es[i as int].name@ {
                            assert(domain_entry_kept(es, i as int) && es[i as int].name@ == n);
                        }
                        if exists|j: int| 0 <= j < i + 1 && domain_entry_kept(es, j) && es[j].name@ == n {
                            let j = choose|j: int| 0 <= j < i + 1 && domain_entry_kept(es, j) && es[j].name@ == n;
                            if j < i {
                                assert(exists|j2: int| 0 <= j2 < i && domain_entry_kept(es, j2) && es[j2].name@ == n);
                            }
                        }
                    }
                }
            },
        }
        i = i + 1;
    }
}

} // verus!
