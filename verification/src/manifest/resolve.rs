//! Every reference a loaded schema makes resolves within it.
use vstd::prelude::*;
use crate::manifest::load::{domain_refs_of, domain_resolves, loaded_from, type_refs_of};
use crate::manifest::lower::availability::{reason_lowered, reasons_pending};
use crate::manifest::lower::content::{
    metadata_domain_refs, metadata_entry_problems, metadata_lowered, metadata_pending, metadata_problems,
    metadata_type_problems,
};
use crate::manifest::lower::definitions::{entry_names, is_first_named};
use crate::manifest::lower::domains::{
    domain_entry_kept, domain_entry_refs, domain_lowered, domains_refs, policy_view, PolicyView,
};
use crate::manifest::lower::functions::{
    condition_entry_pending, conditions_pending, effect_lowered, effects_pending, owner_text, params_lowered, return_of,
    return_view,
};
use crate::manifest::lower::parameters::{lowered_type, param_pending, param_type, param_view, params_pending};
use crate::manifest::lower::queries::{queries_pending, query_entry_pending, query_lowered};
use crate::manifest::raw::{
    Named, RawAvailabilityReasonDefinition, RawConditionDefinition, RawEffectDefinition, RawMetadataDefinition, RawMetadataDomainDefinition,
    RawParameterDefinition, RawProjectionQueryFunctionDefinition,
};
use crate::manifest::validate::{missing_type_target, type_ref_at};
use crate::model::{ConditionReturnType, MetadataDomainDefinition, MissingMetadataContextPolicy, ParameterDefinition, ProjectSchema, TypeRefView};

verus! {

/// Every type in `vs` is declared in `s`.
pub open spec fn types_declared(s: ProjectSchema, vs: Seq<(Seq<char>, TypeRefView)>) -> bool {
    forall|i: int| 0 <= i < vs.len() ==> missing_type_target(s, (#[trigger] vs[i]).1) is None
}

/// Every domain reference in `vs` resolves in `s`.
pub open spec fn domains_declared(s: ProjectSchema, vs: Seq<(Seq<char>, Seq<char>, bool)>) -> bool {
    forall|i: int| 0 <= i < vs.len() ==> domain_resolves(s, (#[trigger] vs[i]).1, vs[i].2)
}

/// Every parameter type of `ps` is declared in `s`.
pub open spec fn params_declared(s: ProjectSchema, ps: Seq<ParameterDefinition>) -> bool {
    forall|j: int| 0 <= j < ps.len() ==> missing_type_target(s, (#[trigger] ps[j]).type_ref@) is None
}

/// Every raw parameter of `ps`, lowered for `owner`, has a type declared in `s`.
pub open spec fn raw_params_declared(s: ProjectSchema, owner: Seq<char>, ps: Seq<RawParameterDefinition>) -> bool {
    forall|j: int| 0 <= j < ps.len() ==> missing_type_target(s, #[trigger] param_type(owner, ps[j])) is None
}

/// The references of a schema resolve within it: the parameter types of its
/// conditions, effects, availability reasons and projection query functions, and the
/// return types of those functions and the enum a condition returns, are
/// declared; every metadata key has a
/// declared type, and one that names a metadata domain is a symbol whose
/// domain is declared; every contextual domain that falls back to another
/// domain names a declared flat domain.
pub open spec fn references_resolve(s: ProjectSchema) -> bool {
    &&& forall|n: Seq<char>| #[trigger] s.conditions.has(n) ==> {
        &&& params_declared(s, s.conditions.spec_get(n)->0.params@)
        &&& (s.conditions.spec_get(n)->0.returns matches ConditionReturnType::Enum(e) ==> s.types.has(e@))
    }
    &&& forall|n: Seq<char>| #[trigger] s.effects.has(n) ==> params_declared(s, s.effects.spec_get(n)->0.params@)
    &&& forall|n: Seq<char>| #[trigger] s.availability_reasons.has(n) ==> params_declared(
        s,
        s.availability_reasons.spec_get(n)->0.params@,
    )
    &&& forall|n: Seq<char>| #[trigger] s.projection_queries.has(n) ==> {
        &&& params_declared(s, s.projection_queries.spec_get(n)->0.params@)
        &&& missing_type_target(s, s.projection_queries.spec_get(n)->0.returns@) is None
    }
    &&& forall|n: Seq<char>| #[trigger] s.metadata.has(n) ==> {
        let m = s.metadata.spec_get(n)->0;
        &&& missing_type_target(s, m.type_ref@) is None
        &&& (m.domain matches Some(d) ==> m.type_ref@ == TypeRefView::Symbol && domain_resolves(s, d@, false))
    }
    &&& forall|n: Seq<char>| #[trigger] s.metadata_domains.has(n) ==> (s.metadata_domains.spec_get(n)->0 matches
        MetadataDomainDefinition::Contextual(c) ==> (c.missing_context matches MissingMetadataContextPolicy::Fallback {
        domain } ==> domain_resolves(s, domain@, true)))
}

proof fn lemma_types_split(s: ProjectSchema, a: Seq<(Seq<char>, TypeRefView)>, b: Seq<(Seq<char>, TypeRefView)>)
    requires
        types_declared(s, a + b),
    ensures
        types_declared(s, a),
        types_declared(s, b),
{
    assert forall|i: int| 0 <= i < a.len() implies missing_type_target(s, (#[trigger] a[i]).1) is None by {
        assert((a + b)[i] == a[i]);
    }
    assert forall|i: int| 0 <= i < b.len() implies missing_type_target(s, (#[trigger] b[i]).1) is None by {
        assert((a + b)[a.len() + i] == b[i]);
    }
}

proof fn lemma_domains_split(
    s: ProjectSchema,
    a: Seq<(Seq<char>, Seq<char>, bool)>,
    b: Seq<(Seq<char>, Seq<char>, bool)>,
)
    requires
        domains_declared(s, a + b),
    ensures
        domains_declared(s, a),
        domains_declared(s, b),
{
    assert forall|i: int| 0 <= i < a.len() implies domain_resolves(s, (#[trigger] a[i]).1, a[i].2) by {
        assert((a + b)[i] == a[i]);
    }
    assert forall|i: int| 0 <= i < b.len() implies domain_resolves(s, (#[trigger] b[i]).1, b[i].2) by {
        assert((a + b)[a.len() + i] == b[i]);
    }
}

proof fn lemma_raw_params_declared(s: ProjectSchema, owner: Seq<char>, ps: Seq<RawParameterDefinition>, n: int)
    requires
        0 <= n <= ps.len(),
        types_declared(s, params_pending(owner, ps, n)),
    ensures
        forall|j: int| 0 <= j < n ==> missing_type_target(s, #[trigger] param_type(owner, ps[j])) is None,
    decreases n,
{
    if n > 0 {
        let tail: Seq<(Seq<char>, TypeRefView)> = if param_pending(owner, ps[n - 1]) {
            seq![(owner + " parameter '"@ + ps[n - 1].name@ + "'"@, param_type(owner, ps[n - 1]))]
        } else {
            Seq::empty()
        };
        assert(params_pending(owner, ps, n) == params_pending(owner, ps, n - 1) + tail);
        lemma_types_split(s, params_pending(owner, ps, n - 1), tail);
        lemma_raw_params_declared(s, owner, ps, n - 1);
        if param_pending(owner, ps[n - 1]) {
            assert(tail[0].1 == param_type(owner, ps[n - 1]));
        }
    }
}

/// Lowered parameters whose raw types are declared have declared types.
proof fn lemma_params_lowered_declared(
    s: ProjectSchema,
    owner: Seq<char>,
    d: Seq<ParameterDefinition>,
    ps: Seq<RawParameterDefinition>,
)
    requires
        params_lowered(owner, d, ps),
        raw_params_declared(s, owner, ps),
    ensures
        params_declared(s, d),
{
    assert forall|j: int| 0 <= j < d.len() implies missing_type_target(s, (#[trigger] d[j]).type_ref@) is None by {
        assert(param_view(d[j]) == (ps[j].name@, param_type(owner, ps[j])));
        assert(missing_type_target(s, param_type(owner, ps[j])) is None);
    }
}

proof fn lemma_effects_declared(s: ProjectSchema, es: Seq<Named<RawEffectDefinition>>, n: int)
    requires
        0 <= n <= es.len(),
        types_declared(s, effects_pending(es, n)),
    ensures
        forall|i: int| 0 <= i < n && #[trigger] is_first_named(entry_names(es), i) ==> raw_params_declared(
            s,
            owner_text("effect '"@, es[i].name@),
            es[i].value.params@,
        ),
    decreases n,
{
    if n > 0 {
        let owner = owner_text("effect '"@, es[n - 1].name@);
        let tail = if is_first_named(entry_names(es), n - 1) {
            params_pending(owner, es[n - 1].value.params@, es[n - 1].value.params@.len() as int)
        } else {
            Seq::empty()
        };
        lemma_types_split(s, effects_pending(es, n - 1), tail);
        lemma_effects_declared(s, es, n - 1);
        if is_first_named(entry_names(es), n - 1) {
            lemma_raw_params_declared(s, owner, es[n - 1].value.params@, es[n - 1].value.params@.len() as int);
        }
    }
}

proof fn lemma_conditions_declared(s: ProjectSchema, es: Seq<Named<RawConditionDefinition>>, n: int)
    requires
        0 <= n <= es.len(),
        types_declared(s, conditions_pending(es, n)),
    ensures
        forall|i: int| 0 <= i < n && #[trigger] is_first_named(entry_names(es), i) ==> {
            &&& raw_params_declared(s, owner_text("condition '"@, es[i].name@), es[i].value.params@)
            &&& (return_of(es[i].value.returns) matches Some(e) ==> s.types.has(e))
        },
    decreases n,
{
    if n > 0 {
        let r = es[n - 1].value;
        let owner = owner_text("condition '"@, es[n - 1].name@);
        lemma_types_split(s, conditions_pending(es, n - 1), condition_entry_pending(es, n - 1));
        lemma_conditions_declared(s, es, n - 1);
        if is_first_named(entry_names(es), n - 1) {
            let ret: Seq<(Seq<char>, TypeRefView)> = match return_of(r.returns) {
                Some(e) => seq![("condition '"@ + es[n - 1].name@ + "' return type"@, TypeRefView::Enum(e))],
                None => Seq::empty(),
            };
            assert(condition_entry_pending(es, n - 1) == params_pending(owner, r.params@, r.params@.len() as int) + ret);
            lemma_types_split(s, params_pending(owner, r.params@, r.params@.len() as int), ret);
            lemma_raw_params_declared(s, owner, r.params@, r.params@.len() as int);
            if return_of(r.returns) is Some {
                assert(ret[0].1 == TypeRefView::Enum(return_of(r.returns)->0));
            }
        }
    }
}

proof fn lemma_conditions_resolve(s: ProjectSchema, es: Seq<Named<RawConditionDefinition>>)
    requires
        types_declared(s, conditions_pending(es, es.len() as int)),
        forall|n: Seq<char>| #[trigger] s.conditions.has(n) <==> exists|i: int|
            0 <= i < es.len() && is_first_named(entry_names(es), i) && es[i].name@ == n,
        forall|i: int| 0 <= i < es.len() && #[trigger] is_first_named(entry_names(es), i)
            ==> (s.conditions.spec_get(es[i].name@) matches Some(d)
                && params_lowered(owner_text("condition '"@, es[i].name@), d.params@, es[i].value.params@)
                && return_view(d.returns) == return_of(es[i].value.returns)),
    ensures
        forall|n: Seq<char>| #[trigger] s.conditions.has(n) ==> {
            &&& params_declared(s, s.conditions.spec_get(n)->0.params@)
            &&& (s.conditions.spec_get(n)->0.returns matches ConditionReturnType::Enum(e) ==> s.types.has(e@))
        },
{
    lemma_conditions_declared(s, es, es.len() as int);
    assert forall|n: Seq<char>| #[trigger] s.conditions.has(n) implies {
        &&& params_declared(s, s.conditions.spec_get(n)->0.params@)
        &&& (s.conditions.spec_get(n)->0.returns matches ConditionReturnType::Enum(e) ==> s.types.has(e@))
    } by {
        let i = choose|i: int| 0 <= i < es.len() && is_first_named(entry_names(es), i) && es[i].name@ == n;
        let d = s.conditions.spec_get(n)->0;
        lemma_params_lowered_declared(s, owner_text("condition '"@, es[i].name@), d.params@, es[i].value.params@);
        if let ConditionReturnType::Enum(e) = d.returns {
            assert(return_of(es[i].value.returns) == Some(e@));
        }
    }
}

proof fn lemma_reasons_declared(s: ProjectSchema, es: Seq<Named<RawAvailabilityReasonDefinition>>, n: int)
    requires
        0 <= n <= es.len(),
        types_declared(s, reasons_pending(es, n)),
    ensures
        forall|i: int| 0 <= i < n && #[trigger] is_first_named(entry_names(es), i) ==> raw_params_declared(
            s,
            owner_text("availability reason '"@, es[i].name@),
            es[i].value.params@,
        ),
    decreases n,
{
    if n > 0 {
        let owner = owner_text("availability reason '"@, es[n - 1].name@);
        let tail = if is_first_named(entry_names(es), n - 1) {
            params_pending(owner, es[n - 1].value.params@, es[n - 1].value.params@.len() as int)
        } else {
            Seq::empty()
        };
        lemma_types_split(s, reasons_pending(es, n - 1), tail);
        lemma_reasons_declared(s, es, n - 1);
        if is_first_named(entry_names(es), n - 1) {
            lemma_raw_params_declared(s, owner, es[n - 1].value.params@, es[n - 1].value.params@.len() as int);
        }
    }
}

proof fn lemma_queries_declared(s: ProjectSchema, es: Seq<Named<RawProjectionQueryFunctionDefinition>>, n: int)
    requires
        0 <= n <= es.len(),
        types_declared(s, queries_pending(es, n)),
    ensures
        forall|i: int| 0 <= i < n && #[trigger] is_first_named(entry_names(es), i) ==> {
            &&& raw_params_declared(s, owner_text("projection query function '"@, es[i].name@), es[i].value.params@)
            &&& missing_type_target(s, lowered_type(es[i].value.returns@)) is None
        },
    decreases n,
{
    if n > 0 {
        let r = es[n - 1].value;
        let owner = owner_text("projection query function '"@, es[n - 1].name@);
        lemma_types_split(s, queries_pending(es, n - 1), query_entry_pending(es, n - 1));
        lemma_queries_declared(s, es, n - 1);
        if is_first_named(entry_names(es), n - 1) {
            let ret: Seq<(Seq<char>, TypeRefView)> = match type_ref_at(r.returns@, 0) {
                Some(t) => seq![(owner + " return type"@, t)],
                None => Seq::empty(),
            };
            assert(query_entry_pending(es, n - 1) == params_pending(owner, r.params@, r.params@.len() as int) + ret);
            lemma_types_split(s, params_pending(owner, r.params@, r.params@.len() as int), ret);
            lemma_raw_params_declared(s, owner, r.params@, r.params@.len() as int);
            if type_ref_at(r.returns@, 0) is Some {
                assert(ret[0].1 == lowered_type(r.returns@));
            }
        }
    }
}

proof fn lemma_metadata_declared(s: ProjectSchema, es: Seq<Named<RawMetadataDefinition>>, n: int)
    requires
        0 <= n <= es.len(),
        types_declared(s, metadata_pending(es, n)),
        domains_declared(s, metadata_domain_refs(es, n)),
        metadata_problems(es, n).len() == 0,
    ensures
        forall|i: int| 0 <= i < n && #[trigger] is_first_named(entry_names(es), i) ==> {
            &&& missing_type_target(s, lowered_type(es[i].value.type_ref@)) is None
            &&& (es[i].value.domain matches Some(d) ==> lowered_type(es[i].value.type_ref@) == TypeRefView::Symbol
                && domain_resolves(s, d@, false))
        },
    decreases n,
{
    if n > 0 {
        let e = es[n - 1];
        let first = is_first_named(entry_names(es), n - 1);
        let tail: Seq<(Seq<char>, TypeRefView)> = if first && type_ref_at(e.value.type_ref@, 0) is Some {
            seq![(owner_text("metadata '"@, e.name@), lowered_type(e.value.type_ref@))]
        } else {
            Seq::empty()
        };
        let dtail: Seq<(Seq<char>, Seq<char>, bool)> = if first && e.value.domain is Some
            && lowered_type(e.value.type_ref@) == TypeRefView::Symbol {
            seq![(owner_text("metadata '"@, e.name@), e.value.domain->0@, false)]
        } else {
            Seq::empty()
        };
        lemma_types_split(s, metadata_pending(es, n - 1), tail);
        lemma_domains_split(s, metadata_domain_refs(es, n - 1), dtail);
        assert(metadata_problems(es, n) == metadata_problems(es, n - 1) + metadata_entry_problems(es, n - 1));
        lemma_metadata_declared(s, es, n - 1);
        if first {
            if type_ref_at(e.value.type_ref@, 0) is Some {
                assert(tail[0].1 == lowered_type(e.value.type_ref@));
            }
            let mp = metadata_type_problems(e);
            assert(metadata_entry_problems(es, n - 1).len() == 0);
            assert(mp.len() == 0);
            if e.value.domain is Some {
                assert(lowered_type(e.value.type_ref@) == TypeRefView::Symbol);
                assert(dtail[0].1 == e.value.domain->0@);
            }
        }
    }
}

proof fn lemma_domain_entries_declared(s: ProjectSchema, es: Seq<Named<RawMetadataDomainDefinition>>, n: int)
    requires
        0 <= n <= es.len(),
        domains_declared(s, domains_refs(es, n)),
    ensures
        forall|i: int| 0 <= i < n && #[trigger] domain_entry_kept(es, i) ==> domains_declared(
            s,
            domain_entry_refs(es[i].name@, es[i].value),
        ),
    decreases n,
{
    if n > 0 {
        let tail = if is_first_named(entry_names(es), n - 1) {
            domain_entry_refs(es[n - 1].name@, es[n - 1].value)
        } else {
            Seq::empty()
        };
        lemma_domains_split(s, domains_refs(es, n - 1), tail);
        lemma_domain_entries_declared(s, es, n - 1);
    }
}

proof fn lemma_effects_resolve(s: ProjectSchema, es: Seq<Named<RawEffectDefinition>>)
    requires
        types_declared(s, effects_pending(es, es.len() as int)),
        forall|n: Seq<char>| #[trigger] s.effects.has(n) <==> exists|i: int|
            0 <= i < es.len() && is_first_named(entry_names(es), i) && es[i].name@ == n,
        forall|i: int| 0 <= i < es.len() && #[trigger] is_first_named(entry_names(es), i)
            ==> (s.effects.spec_get(es[i].name@) matches Some(d) && effect_lowered(d, es[i])),
    ensures
        forall|n: Seq<char>| #[trigger] s.effects.has(n) ==> params_declared(s, s.effects.spec_get(n)->0.params@),
{
    lemma_effects_declared(s, es, es.len() as int);
    assert forall|n: Seq<char>| #[trigger] s.effects.has(n) implies params_declared(s, s.effects.spec_get(n)->0.params@) by {
        let i = choose|i: int| 0 <= i < es.len() && is_first_named(entry_names(es), i) && es[i].name@ == n;
        lemma_params_lowered_declared(s, owner_text("effect '"@, es[i].name@), s.effects.spec_get(n)->0.params@,
            es[i].value.params@);
    }
}

proof fn lemma_reasons_resolve(s: ProjectSchema, es: Seq<Named<RawAvailabilityReasonDefinition>>)
    requires
        types_declared(s, reasons_pending(es, es.len() as int)),
        forall|n: Seq<char>| #[trigger] s.availability_reasons.has(n) <==> exists|i: int|
            0 <= i < es.len() && is_first_named(entry_names(es), i) && es[i].name@ == n,
        forall|i: int| 0 <= i < es.len() && #[trigger] is_first_named(entry_names(es), i)
            ==> (s.availability_reasons.spec_get(es[i].name@) matches Some(d) && reason_lowered(d, es[i])),
    ensures
        forall|n: Seq<char>| #[trigger] s.availability_reasons.has(n) ==> params_declared(
            s,
            s.availability_reasons.spec_get(n)->0.params@,
        ),
{
    lemma_reasons_declared(s, es, es.len() as int);
    assert forall|n: Seq<char>| #[trigger] s.availability_reasons.has(n) implies params_declared(
        s,
        s.availability_reasons.spec_get(n)->0.params@,
    ) by {
        let i = choose|i: int| 0 <= i < es.len() && is_first_named(entry_names(es), i) && es[i].name@ == n;
        lemma_params_lowered_declared(s, owner_text("availability reason '"@, es[i].name@),
            s.availability_reasons.spec_get(n)->0.params@, es[i].value.params@);
    }
}

proof fn lemma_queries_resolve(s: ProjectSchema, es: Seq<Named<RawProjectionQueryFunctionDefinition>>)
    requires
        types_declared(s, queries_pending(es, es.len() as int)),
        forall|n: Seq<char>| #[trigger] s.projection_queries.has(n) <==> exists|i: int|
            0 <= i < es.len() && is_first_named(entry_names(es), i) && es[i].name@ == n,
        forall|i: int| 0 <= i < es.len() && #[trigger] is_first_named(entry_names(es), i)
            ==> (s.projection_queries.spec_get(es[i].name@) matches Some(d) && query_lowered(d, es[i])),
    ensures
        forall|n: Seq<char>| #[trigger] s.projection_queries.has(n) ==> {
            &&& params_declared(s, s.projection_queries.spec_get(n)->0.params@)
            &&& missing_type_target(s, s.projection_queries.spec_get(n)->0.returns@) is None
        },
{
    lemma_queries_declared(s, es, es.len() as int);
    assert forall|n: Seq<char>| #[trigger] s.projection_queries.has(n) implies {
        &&& params_declared(s, s.projection_queries.spec_get(n)->0.params@)
        &&& missing_type_target(s, s.projection_queries.spec_get(n)->0.returns@) is None
    } by {
        let i = choose|i: int| 0 <= i < es.len() && is_first_named(entry_names(es), i) && es[i].name@ == n;
        lemma_params_lowered_declared(s, owner_text("projection query function '"@, es[i].name@),
            s.projection_queries.spec_get(n)->0.params@, es[i].value.params@);
    }
}

proof fn lemma_metadata_resolve(s: ProjectSchema, es: Seq<Named<RawMetadataDefinition>>)
    requires
        types_declared(s, metadata_pending(es, es.len() as int)),
        domains_declared(s, metadata_domain_refs(es, es.len() as int)),
        metadata_problems(es, es.len() as int).len() == 0,
        forall|n: Seq<char>| #[trigger] s.metadata.has(n) <==> exists|i: int|
            0 <= i < es.len() && is_first_named(entry_names(es), i) && es[i].name@ == n,
        forall|i: int| 0 <= i < es.len() && #[trigger] is_first_named(entry_names(es), i)
            ==> (s.metadata.spec_get(es[i].name@) matches Some(d) && metadata_lowered(d, es[i])),
    ensures
        forall|n: Seq<char>| #[trigger] s.metadata.has(n) ==> {
            let m = s.metadata.spec_get(n)->0;
            &&& missing_type_target(s, m.type_ref@) is None
            &&& (m.domain matches Some(d) ==> m.type_ref@ == TypeRefView::Symbol && domain_resolves(s, d@, false))
        },
{
    lemma_metadata_declared(s, es, es.len() as int);
    assert forall|n: Seq<char>| #[trigger] s.metadata.has(n) implies {
        let m = s.metadata.spec_get(n)->0;
        &&& missing_type_target(s, m.type_ref@) is None
        &&& (m.domain matches Some(d) ==> m.type_ref@ == TypeRefView::Symbol && domain_resolves(s, d@, false))
    } by {
        let i = choose|i: int| 0 <= i < es.len() && is_first_named(entry_names(es), i) && es[i].name@ == n;
        let m = s.metadata.spec_get(n)->0;
        assert(crate::model::canonical::opt_text(m.domain) == crate::model::canonical::opt_text(es[i].value.domain));
        if m.domain is Some {
            assert(es[i].value.domain is Some);
            assert(m.domain->0@ == es[i].value.domain->0@);
        }
    }
}

proof fn lemma_fallbacks_resolve(s: ProjectSchema, es: Seq<Named<RawMetadataDomainDefinition>>, allow: bool)
    requires
        domains_declared(s, domains_refs(es, es.len() as int)),
        forall|n: Seq<char>| #[trigger] s.metadata_domains.has(n) <==> exists|i: int|
            0 <= i < es.len() && domain_entry_kept(es, i) && es[i].name@ == n,
        forall|i: int| 0 <= i < es.len() && #[trigger] domain_entry_kept(es, i)
            ==> (s.metadata_domains.spec_get(es[i].name@) matches Some(d) && domain_lowered(d, es[i].value, allow)),
    ensures
        forall|n: Seq<char>| #[trigger] s.metadata_domains.has(n) ==> (s.metadata_domains.spec_get(n)->0 matches
            MetadataDomainDefinition::Contextual(c) ==> (c.missing_context matches MissingMetadataContextPolicy::Fallback {
            domain } ==> domain_resolves(s, domain@, true))),
{
    lemma_domain_entries_declared(s, es, es.len() as int);
    assert forall|n: Seq<char>| #[trigger] s.metadata_domains.has(n) implies (s.metadata_domains.spec_get(n)->0 matches
        MetadataDomainDefinition::Contextual(c) ==> (c.missing_context matches MissingMetadataContextPolicy::Fallback {
        domain } ==> domain_resolves(s, domain@, true))) by {
        let i = choose|i: int| 0 <= i < es.len() && domain_entry_kept(es, i) && es[i].name@ == n;
        let d = s.metadata_domains.spec_get(n)->0;
        if let MetadataDomainDefinition::Contextual(c) = d {
            if let MissingMetadataContextPolicy::Fallback { domain } = c.missing_context {
                assert(policy_view(c.missing_context) == PolicyView::Fallback(domain@));
                let refs = domain_entry_refs(es[i].name@, es[i].value);
                assert(refs[0].1 == domain@);
            }
        }
    }
}

/// A schema loaded from a manifest has no dangling reference: every type,
/// metadata domain and fallback domain it names is declared in it.
#[verifier::spinoff_prover]
#[verifier::rlimit(100)]
pub proof fn lemma_loaded_references_resolve(raw: crate::manifest::raw::RawManifest, allow: bool, s: ProjectSchema)
    requires
        loaded_from(raw, allow, s),
    ensures
        references_resolve(s),
{
    let cp = conditions_pending(raw.conditions@, raw.conditions@.len() as int);
    let rp = reasons_pending(raw.availability_reasons@, raw.availability_reasons@.len() as int);
    let ep = effects_pending(raw.effects@, raw.effects@.len() as int);
    let mp = metadata_pending(raw.metadata@, raw.metadata@.len() as int);
    let qp = queries_pending(raw.projection_queries@, raw.projection_queries@.len() as int);
    assert(types_declared(s, type_refs_of(raw)));
    lemma_types_split(s, cp + rp + ep + mp, qp);
    lemma_types_split(s, cp + rp + ep, mp);
    lemma_types_split(s, cp + rp, ep);
    lemma_types_split(s, cp, rp);
    let dp = domains_refs(raw.metadata_domains@, raw.metadata_domains@.len() as int);
    let mdp = metadata_domain_refs(raw.metadata@, raw.metadata@.len() as int);
    assert(domains_declared(s, domain_refs_of(raw)));
    lemma_domains_split(s, dp, mdp);
    lemma_conditions_resolve(s, raw.conditions@);
    lemma_effects_resolve(s, raw.effects@);
    lemma_reasons_resolve(s, raw.availability_reasons@);
    lemma_queries_resolve(s, raw.projection_queries@);
    lemma_metadata_resolve(s, raw.metadata@);
    lemma_fallbacks_resolve(s, raw.metadata_domains@, allow);
}

} // verus!
