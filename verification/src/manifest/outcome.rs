//! The reference checks that end a load, stated as problems: the diagnostic
//! each unresolved type or metadata domain reference gives, without its span.
use vstd::prelude::*;
use crate::diagnostics::{
    appended, diagnostic_is, problem_of, reported, reports, ArgumentView, Diagnostic, DiagnosticView,
    Problem, SpanView,
};
use crate::manifest::lower::content::domain_refs_view;
use crate::manifest::lower::parameters::pending_views;
use crate::manifest::validate::{
    domain_ref_diagnostics, domain_refs_diagnostics, missing_type_target, type_ref_diagnostics,
    type_refs_diagnostics, unknown_type_view, PendingDomainReference, PendingTypeReference,
};
use crate::model::{MetadataDomainDefinition, ProjectSchema, TypeRefView};

verus! {

/// The span that stands in where a problem leaves the span out.
pub open spec fn no_span() -> SpanView {
    SpanView { file: Seq::empty(), start: (1, 1), end: None }
}

/// The problem of one type reference made by `owner`: none when it resolves.
pub open spec fn type_ref_problem(s: ProjectSchema, owner: Seq<char>, t: TypeRefView) -> Seq<Problem> {
    match missing_type_target(s, t) {
        Some(target) => seq![problem_of(unknown_type_view(owner, target, no_span()))],
        None => Seq::empty(),
    }
}

/// The problems of type references, in order.
pub open spec fn type_ref_problems(s: ProjectSchema, vs: Seq<(Seq<char>, TypeRefView)>) -> Seq<Problem>
    decreases vs.len(),
{
    if vs.len() == 0 {
        Seq::empty()
    } else {
        type_ref_problems(s, vs.drop_last()) + type_ref_problem(s, vs.last().0, vs.last().1)
    }
}

/// The problem of one metadata domain reference made by `owner`: none when
/// the domain is declared, and flat where `flat` asks for it.
pub open spec fn domain_ref_problem(s: ProjectSchema, owner: Seq<char>, domain: Seq<char>, flat: bool) -> Seq<Problem> {
    match s.metadata_domains.spec_get(domain) {
        Some(MetadataDomainDefinition::Flat(_)) => Seq::empty(),
        Some(MetadataDomainDefinition::Contextual(_)) => if flat {
            seq![Problem {
                code: "RECITE_SCHEMA004"@,
                presentation_id: "diagnostic-schema-004-contextual-domain-for-flat"@,
                message: owner + " references contextual metadata domain '"@ + domain + "', but a flat domain is required"@,
                arguments: seq![("owner"@, ArgumentView::Text(owner)), ("domain"@, ArgumentView::Text(domain))],
            }]
        } else {
            Seq::empty()
        },
        None => seq![Problem {
            code: "RECITE_SCHEMA004"@,
            presentation_id: "diagnostic-schema-004-unknown-metadata-domain"@,
            message: owner + " references unknown metadata domain '"@ + domain + "'"@,
            arguments: seq![("owner"@, ArgumentView::Text(owner)), ("domain"@, ArgumentView::Text(domain))],
        }],
    }
}

/// The problems of metadata domain references, in order.
pub open spec fn domain_ref_problems(s: ProjectSchema, vs: Seq<(Seq<char>, Seq<char>, bool)>) -> Seq<Problem>
    decreases vs.len(),
{
    if vs.len() == 0 {
        Seq::empty()
    } else {
        domain_ref_problems(s, vs.drop_last()) + domain_ref_problem(s, vs.last().0, vs.last().1, vs.last().2)
    }
}

/// Described diagnostics report the problems their views describe.
pub proof fn lemma_appended_reported(a: Seq<Diagnostic>, b: Seq<Diagnostic>, vs: Seq<DiagnosticView>)
    requires
        appended(a, b, vs),
    ensures
        reported(a, b, vs.map_values(|v: DiagnosticView| problem_of(v))),
{
    let ps = vs.map_values(|v: DiagnosticView| problem_of(v));
    let suffix = b.subrange(a.len() as int, b.len() as int);
    assert forall|i: int| 0 <= i < ps.len() implies reports(#[trigger] b[a.len() + i], ps[i]) by {
        assert(suffix[i] == b[a.len() + i]);
        assert(diagnostic_is(suffix[i], vs[i]));
    }
}

proof fn lemma_type_views(s: ProjectSchema, ps: Seq<PendingTypeReference>)
    ensures
        type_refs_diagnostics(s, ps).map_values(|v: DiagnosticView| problem_of(v)) == type_ref_problems(s, pending_views(ps)),
    decreases ps.len(),
{
    let f = |v: DiagnosticView| problem_of(v);
    if ps.len() > 0 {
        lemma_type_views(s, ps.drop_last());
        assert(pending_views(ps).drop_last() =~= pending_views(ps.drop_last()));
        let a = type_refs_diagnostics(s, ps.drop_last());
        let b = type_ref_diagnostics(s, ps.last());
        assert((a + b).map_values(f) =~= a.map_values(f) + b.map_values(f));
        assert(b.map_values(f) =~= type_ref_problem(s, ps.last().owner@, ps.last().type_ref@));
        assert(type_ref_problems(s, pending_views(ps)) =~= a.map_values(f) + b.map_values(f));
    } else {
        assert(type_refs_diagnostics(s, ps).map_values(f) =~= Seq::<Problem>::empty());
    }
}

proof fn lemma_domain_views(s: ProjectSchema, ps: Seq<PendingDomainReference>)
    ensures
        domain_refs_diagnostics(s, ps).map_values(|v: DiagnosticView| problem_of(v)) == domain_ref_problems(s, domain_refs_view(ps)),
    decreases ps.len(),
{
    let f = |v: DiagnosticView| problem_of(v);
    if ps.len() > 0 {
        lemma_domain_views(s, ps.drop_last());
        assert(domain_refs_view(ps).drop_last() =~= domain_refs_view(ps.drop_last()));
        let a = domain_refs_diagnostics(s, ps.drop_last());
        let b = domain_ref_diagnostics(s, ps.last());
        assert((a + b).map_values(f) =~= a.map_values(f) + b.map_values(f));
        assert(b.map_values(f) =~= domain_ref_problem(s, ps.last().owner@, ps.last().domain@, ps.last().require_flat));
        assert(domain_ref_problems(s, domain_refs_view(ps)) =~= a.map_values(f) + b.map_values(f));
    } else {
        assert(domain_refs_diagnostics(s, ps).map_values(f) =~= Seq::<Problem>::empty());
    }
}

/// Checking type references reports their problems.
pub proof fn lemma_type_refs_reported(a: Seq<Diagnostic>, b: Seq<Diagnostic>, s: ProjectSchema, ps: Seq<PendingTypeReference>)
    requires
        appended(a, b, type_refs_diagnostics(s, ps)),
    ensures
        reported(a, b, type_ref_problems(s, pending_views(ps))),
{
    lemma_appended_reported(a, b, type_refs_diagnostics(s, ps));
    lemma_type_views(s, ps);
}

/// Checking domain references reports their problems.
pub proof fn lemma_domain_refs_reported(a: Seq<Diagnostic>, b: Seq<Diagnostic>, s: ProjectSchema, ps: Seq<PendingDomainReference>)
    requires
        appended(a, b, domain_refs_diagnostics(s, ps)),
    ensures
        reported(a, b, domain_ref_problems(s, domain_refs_view(ps))),
{
    lemma_appended_reported(a, b, domain_refs_diagnostics(s, ps));
    lemma_domain_views(s, ps);
}

} // verus!
