//! Lowering of conditions and effects.
use vstd::prelude::*;
use crate::collections::StrSet;
use crate::diagnostics::{
    lemma_reported_none, lemma_reported_push, lemma_reported_trans, problem_of, reported, reports,
    schema_diagnostic, text_arg, ArgumentView, Diagnostic, Problem,
};
use crate::manifest::lower::definitions::{
    entry_names, is_first_named, lemma_push_contains_seq_pub, name_problems,
};
use crate::manifest::lower::parameters::{
    lower_params_at, param_type, param_view, params_pending, params_problems, pending_added,
    pending_views,
};
use crate::manifest::raw::{Named, RawConditionAvailabilityReasonMapping, RawConditionDefinition, RawEffectDefinition, RawParameterDefinition};
use crate::manifest::spans::ManifestSpans;
use crate::manifest::validate::{
    duplicate_definition, duplicate_view, effect_mode_of, invalid_name_view, parse_effect_mode,
    parse_enum_return, prefixed_name, spec_is_manifest_name, validate_manifest_name,
    PendingTypeReference,
};
use crate::model::{
    ConditionDefinition, ConditionReturnType, EffectDefinition, EffectMode, EffectModeSet,
    ParameterDefinition, ProjectSchema, SchemaTypeRef, TypeRefView,
};

verus! {

/// All fields of two schemas but the effects agree.
pub open spec fn same_but_effects(a: ProjectSchema, b: ProjectSchema) -> bool {
    &&& a.schema_version == b.schema_version
    &&& a.types == b.types
    &&& a.registries == b.registries
    &&& a.speakers == b.speakers
    &&& a.conditions == b.conditions
    &&& a.availability_reasons == b.availability_reasons
    &&& a.metadata_domains == b.metadata_domains
    &&& a.metadata == b.metadata
    &&& a.projection_queries == b.projection_queries
    &&& a.presentation_projectors == b.presentation_projectors
    &&& a.markup == b.markup
    &&& a.producer_metadata == b.producer_metadata
}

/// All fields of two schemas but the conditions agree.
pub open spec fn same_but_conditions(a: ProjectSchema, b: ProjectSchema) -> bool {
    &&& a.schema_version == b.schema_version
    &&& a.types == b.types
    &&& a.registries == b.registries
    &&& a.speakers == b.speakers
    &&& a.availability_reasons == b.availability_reasons
    &&& a.effects == b.effects
    &&& a.metadata_domains == b.metadata_domains
    &&& a.metadata == b.metadata
    &&& a.projection_queries == b.projection_queries
    &&& a.presentation_projectors == b.presentation_projectors
    &&& a.markup == b.markup
    &&& a.producer_metadata == b.producer_metadata
}

/// Texts of a list of strings.
pub open spec fn mode_texts(vs: Seq<String>) -> Seq<Seq<char>> {
    vs.map_values(|s: String| s@)
}

/// Some earlier text names the same effect mode.
pub open spec fn mode_named_before(vs: Seq<Seq<char>>, i: int, m: EffectMode) -> bool {
    exists|k: int| 0 <= k < i && effect_mode_of(#[trigger] vs[k]) == Some(m)
}

/// The problems of an effect's mode list.
pub open spec fn mode_problems(effect: Seq<char>, vs: Seq<Seq<char>>, n: int) -> Seq<Problem>
    decreases n,
{
    if n <= 0 {
        Seq::empty()
    } else {
        let v = vs[n - 1];
        mode_problems(effect, vs, n - 1) + match effect_mode_of(v) {
            None => seq![Problem {
                code: "RECITE_SCHEMA001"@,
                presentation_id: "diagnostic-schema-001-effect-mode"@,
                message: "effect '"@ + effect + "' uses unsupported mode '"@ + v + "'"@,
                arguments: seq![("effect"@, ArgumentView::Text(effect)), ("mode"@, ArgumentView::Text(v))],
            }],
            Some(m) => if mode_named_before(vs, n - 1, m) {
                seq![Problem {
                    code: "RECITE_SCHEMA003"@,
                    presentation_id: "diagnostic-schema-003-effect-mode"@,
                    message: "effect '"@ + effect + "' repeats mode '"@ + v + "'"@,
                    arguments: seq![("effect"@, ArgumentView::Text(effect)), ("mode"@, ArgumentView::Text(v))],
                }]
            } else {
                Seq::empty()
            },
        }
    }
}

/// Owner text of a named definition: the prefix (such as `effect '`), the name and `'`.
pub open spec fn owner_text(prefix: Seq<char>, name: Seq<char>) -> Seq<char> {
    prefix + name + "'"@
}

/// The problems reported for effect entry `i`.
pub open spec fn effect_entry_problems(es: Seq<Named<RawEffectDefinition>>, i: int) -> Seq<Problem> {
    let names = entry_names(es);
    if !is_first_named(names, i) {
        name_problems(names, i, "effect name"@, "effect"@)
    } else {
        let vs = mode_texts(es[i].value.modes@);
        mode_problems(es[i].name@, vs, vs.len() as int) + params_problems(
            owner_text("effect '"@, es[i].name@),
            es[i].value.params@,
            es[i].value.params@.len() as int,
        )
    }
}

/// The problems reported for the first `n` effect entries.
pub open spec fn effects_problems(es: Seq<Named<RawEffectDefinition>>, n: int) -> Seq<Problem>
    decreases n,
{
    if n <= 0 {
        Seq::empty()
    } else {
        effects_problems(es, n - 1) + effect_entry_problems(es, n - 1)
    }
}

/// The pending type references of the first `n` effect entries.
pub open spec fn effects_pending(es: Seq<Named<RawEffectDefinition>>, n: int) -> Seq<(Seq<char>, TypeRefView)>
    decreases n,
{
    if n <= 0 {
        Seq::empty()
    } else {
        effects_pending(es, n - 1) + if is_first_named(entry_names(es), n - 1) {
            params_pending(owner_text("effect '"@, es[n - 1].name@), es[n - 1].value.params@, es[n - 1].value.params@.len() as int)
        } else {
            Seq::empty()
        }
    }
}

/// The lowered parameters agree with a raw list lowered for `owner`.
pub open spec fn params_lowered(owner: Seq<char>, r: Seq<ParameterDefinition>, ps: Seq<RawParameterDefinition>) -> bool {
    r.len() == ps.len() && forall|i: int| 0 <= i < ps.len() ==> #[trigger] param_view(r[i]) == (ps[i].name@, param_type(owner, ps[i]))
}

/// The effect an effect entry lowers to: the modes its mode list names, and its parameters.
pub open spec fn effect_lowered(d: EffectDefinition, e: Named<RawEffectDefinition>) -> bool {
    &&& forall|m: EffectMode| #[trigger] d.modes.has(m) <==> mode_named_before(mode_texts(e.value.modes@), e.value.modes@.len() as int, m)
    &&& params_lowered(owner_text("effect '"@, e.name@), d.params@, e.value.params@)
}

fn lower_modes(
    file: &str,
    source: &[char],
    spans: &mut ManifestSpans,
    diagnostics: &mut Vec<Diagnostic>,
    effect: &str,
    modes: &Vec<String>,
) -> (r: EffectModeSet)
    ensures
        forall|m: EffectMode| #[trigger] r.has(m) <==> mode_named_before(mode_texts(modes@), modes@.len() as int, m),
        reported(old(diagnostics)@, final(diagnostics)@, mode_problems(effect@, mode_texts(modes@), modes@.len() as int)),
{
    let ghost vs = mode_texts(modes@);
    let ghost start = diagnostics@;
    let mut set = EffectModeSet::new();
    let mut i: usize = 0;
    proof {
        lemma_reported_none(start);
    }
    while i < modes.len()
        invariant
            vs == mode_texts(modes@),
            i <= modes@.len(),
            forall|m: EffectMode| #[trigger] set.has(m) <==> mode_named_before(vs, i as int, m),
            reported(start, diagnostics@, mode_problems(effect@, vs, i as int)),
        decreases modes@.len() - i,
    {
        let mode = &modes[i];
        let ghost mid = diagnostics@;
        proof {
            assert(vs[i as int] == mode@);
        }
        let span = spans.next_string_span(file, source, mode.as_str());
        match parse_effect_mode(mode.as_str()) {
            None => {
                let mut message = crate::text::concat3("effect '", effect, "' uses unsupported mode '");
                crate::text::push_text(&mut message, mode.as_str());
                crate::text::push_text(&mut message, "'");
                let args = vec![text_arg("effect", effect), text_arg("mode", mode.as_str())];
                let d = schema_diagnostic(crate::diagnostics::malformed_shape(), "diagnostic-schema-001-effect-mode", message, span, args);
                proof {
                    assert(crate::diagnostics::arguments_view(args@) =~= seq![
                        ("effect"@, ArgumentView::Text(effect@)),
                        ("mode"@, ArgumentView::Text(mode@)),
                    ]);
                    let p = mode_problems(effect@, vs, i + 1).last();
                    lemma_reported_push(start, mid, mode_problems(effect@, vs, i as int), d, p);
                    assert(mode_problems(effect@, vs, i as int).push(p) =~= mode_problems(effect@, vs, i + 1));
                    assert forall|m: EffectMode| #[trigger] set.has(m) <==> mode_named_before(vs, i + 1, m) by {
                        if mode_named_before(vs, i + 1, m) {
                            let k = choose|k: int| 0 <= k < i + 1 && effect_mode_of(#[trigger] vs[k]) == Some(m);
                            if k < i {
                                assert(mode_named_before(vs, i as int, m));
                            }
                        }
                        if mode_named_before(vs, i as int, m) {
                            let k = choose|k: int| 0 <= k < i && effect_mode_of(#[trigger] vs[k]) == Some(m);
                            assert(0 <= k < i + 1 && effect_mode_of(vs[k]) == Some(m));
                        }
                    }
                }
                diagnostics.push(d);
            },
            Some(m) => {
                let ghost old_set = set;
                let fresh = set.insert(m);
                proof {
                    assert(fresh == !mode_named_before(vs, i as int, m));
                    assert forall|x: EffectMode| #[trigger] set.has(x) <==> mode_named_before(vs, i + 1, x) by {
                        if mode_named_before(vs, i + 1, x) {
                            let k = choose|k: int| 0 <= k < i + 1 && effect_mode_of(#[trigger] vs[k]) == Some(x);
                            if k < i {
                                assert(mode_named_before(vs, i as int, x));
                            }
                        }
                        if mode_named_before(vs, i as int, x) {
                            let k = choose|k: int| 0 <= k < i && effect_mode_of(#[trigger] vs[k]) == Some(x);
                            assert(0 <= k < i + 1 && effect_mode_of(vs[k]) == Some(x));
                        }
                        if x == m {
                            assert(effect_mode_of(vs[i as int]) == Some(x));
                        }
                    }
                }
                if !fresh {
                    let mut message = crate::text::concat3("effect '", effect, "' repeats mode '");
                    crate::text::push_text(&mut message, mode.as_str());
                    crate::text::push_text(&mut message, "'");
                    let args = vec![text_arg("effect", effect), text_arg("mode", mode.as_str())];
                    let d = schema_diagnostic(crate::diagnostics::duplicate_definition_code(), "diagnostic-schema-003-effect-mode", message, span, args);
                    proof {
                        assert(crate::diagnostics::arguments_view(args@) =~= seq![
                            ("effect"@, ArgumentView::Text(effect@)),
                            ("mode"@, ArgumentView::Text(mode@)),
                        ]);
                        let p = mode_problems(effect@, vs, i + 1).last();
                        lemma_reported_push(start, mid, mode_problems(effect@, vs, i as int), d, p);
                        assert(mode_problems(effect@, vs, i as int).push(p) =~= mode_problems(effect@, vs, i + 1));
                    }
                    diagnostics.push(d);
                } else {
                    proof {
                        assert(mode_problems(effect@, vs, i as int) =~= mode_problems(effect@, vs, i + 1));
                    }
                }
            },
        }
        i = i + 1;
    }
    set
}


/// Lower the `effects` section: each entry with a new schema name becomes an
/// effect with the modes it names and its parameters.
pub fn lower_effects(
    file: &str,
    source: &[char],
    spans: &mut ManifestSpans,
    entries: Vec<Named<RawEffectDefinition>>,
    schema: &mut ProjectSchema,
    diagnostics: &mut Vec<Diagnostic>,
    pending_type_refs: &mut Vec<PendingTypeReference>,
)
    ensures
        reported(old(diagnostics)@, final(diagnostics)@, effects_problems(entries@, entries@.len() as int)),
        pending_added(old(pending_type_refs)@, final(pending_type_refs)@, effects_pending(entries@, entries@.len() as int)),
        same_but_effects(*old(schema), *final(schema)),
        forall|n: Seq<char>| #[trigger] final(schema).effects.has(n) <==> (old(schema).effects.has(n)
            || exists|i: int| 0 <= i < entries@.len() && is_first_named(entry_names(entries@), i) && entries@[i].name@ == n),
        forall|i: int| 0 <= i < entries@.len() && #[trigger] is_first_named(entry_names(entries@), i) ==> (
            final(schema).effects.spec_get(entries@[i].name@) matches Some(d) && effect_lowered(d, entries@[i])),
{
    let ghost es = entries@;
    let ghost names = entry_names(es);
    let ghost start = diagnostics@;
    let ghost pstart = pending_type_refs@;
    let ghost s0 = *schema;
    let mut seen = StrSet::new();
    let mut i: usize = 0;
    proof {
        lemma_reported_none(start);
        assert(pending_type_refs@.subrange(0, pstart.len() as int) =~= pstart);
        assert(pending_views(pending_type_refs@.subrange(pstart.len() as int, pstart.len() as int)) =~= Seq::<(Seq<char>, TypeRefView)>::empty());
    }
    while i < entries.len()
        invariant
            es == entries@,
            names == entry_names(es),
            i <= es.len(),
            same_but_effects(s0, *schema),
            reported(start, diagnostics@, effects_problems(es, i as int)),
            pending_added(pstart, pending_type_refs@, effects_pending(es, i as int)),
            forall|n: Seq<char>| #[trigger] seen.elem_set().contains(n) <==> (spec_is_manifest_name(n) && names.take(i as int).contains(n)),
            forall|n: Seq<char>| #[trigger] schema.effects.has(n) <==> (s0.effects.has(n)
                || exists|j: int| 0 <= j < i && is_first_named(names, j) && es[j].name@ == n),
            forall|j: int| 0 <= j < i && #[trigger] is_first_named(names, j) ==> (schema.effects.spec_get(es[j].name@) matches Some(d)
                && effect_lowered(d, es[j])),
        decreases es.len() - i,
    {
        let entry = &entries[i];
        let ghost mid = diagnostics@;
        let ghost pmid = pending_type_refs@;
        proof {
            assert(names[i as int] == entry.name@);
            assert(names.take(i + 1) =~= names.take(i as int).push(entry.name@));
        }
        let name_span = spans.next_string_span(file, source, entry.name.as_str());
        let dup_span = name_span.copy();
        if !validate_manifest_name(diagnostics, "effect name", entry.name.as_str(), name_span) {
            proof {
                lemma_reported_push(start, mid, effects_problems(es, i as int), diagnostics@.last(), problem_of(invalid_name_view("effect name"@, arbitrary())));
                assert(diagnostics@ =~= mid.push(diagnostics@.last()));
                assert forall|n: Seq<char>| #[trigger] seen.elem_set().contains(n) <==> (spec_is_manifest_name(n) && names.take(i + 1).contains(n)) by {
                    lemma_push_contains_seq_pub(names.take(i as int), entry.name@, n);
                }
                assert(effects_pending(es, i + 1) =~= effects_pending(es, i as int));
            }
            i = i + 1;
            continue;
        }
        let ghost seen_before = seen;
        proof {
            assert(seen_before.elem_set().contains(entry.name@) == seen_before.elems().contains(entry.name@));
        }
        let fresh = seen.insert(crate::text::copy_string(&entry.name));
        proof {
            assert forall|n: Seq<char>| #[trigger] seen.elem_set().contains(n) <==> (spec_is_manifest_name(n) && names.take(i + 1).contains(n)) by {
                lemma_push_contains_seq_pub(names.take(i as int), entry.name@, n);
            }
        }
        if !fresh {
            duplicate_definition(diagnostics, "effect", entry.name.as_str(), dup_span);
            proof {
                lemma_reported_push(start, mid, effects_problems(es, i as int), diagnostics@.last(), problem_of(duplicate_view("effect"@, entry.name@, arbitrary())));
                assert(diagnostics@ =~= mid.push(diagnostics@.last()));
                assert(effects_pending(es, i + 1) =~= effects_pending(es, i as int));
            }
            i = i + 1;
            continue;
        }
        let modes = lower_modes(file, source, spans, diagnostics, entry.name.as_str(), &entry.value.modes);
        let ghost m2 = diagnostics@;
        let owner = crate::text::concat3("effect '", entry.name.as_str(), "'");
        let params = lower_params_at(file, source, spans, diagnostics, owner.as_str(), &entry.value.params, pending_type_refs);
        proof {
            lemma_reported_trans(mid, m2, diagnostics@, mode_problems(entry.name@, mode_texts(entry.value.modes@), entry.value.modes@.len() as int), params_problems(owner@, entry.value.params@, entry.value.params@.len() as int));
            assert(is_first_named(names, i as int));
            assert(owner@ == owner_text("effect '"@, entry.name@));
            assert(effect_entry_problems(es, i as int) == mode_problems(entry.name@, mode_texts(entry.value.modes@), entry.value.modes@.len() as int) + params_problems(owner@, entry.value.params@, entry.value.params@.len() as int));
            lemma_reported_trans(start, mid, diagnostics@, effects_problems(es, i as int), effect_entry_problems(es, i as int));
            let added = params_pending(owner@, entry.value.params@, entry.value.params@.len() as int);
            assert(effects_pending(es, i + 1) == effects_pending(es, i as int) + added);
            lemma_pending_added_trans(pstart, pmid, pending_type_refs@, effects_pending(es, i as int), added);
        }
        let ghost before = *schema;
        schema.effects.insert(crate::text::copy_string(&entry.name), EffectDefinition { modes, params });
        proof {
            assert forall|j: int| 0 <= j < i + 1 && #[trigger] is_first_named(names, j) implies (schema.effects.spec_get(es[j].name@) matches Some(d)
                && effect_lowered(d, es[j])) by {
                if j < i {
                    if names[j] == names[i as int] {
                        assert(names.take(i as int)[j] == names[i as int]);
                    }
                    assert(names[j] == es[j].name@);
                }
            }
            assert forall|n: Seq<char>| #[trigger] schema.effects.has(n) <==> (s0.effects.has(n)
                || exists|j: int| 0 <= j < i + 1 && is_first_named(names, j) && es[j].name@ == n) by {
                assert(schema.effects.keys().to_set().contains(n) == schema.effects.has(n));
                assert(before.effects.keys().to_set().contains(n) == before.effects.has(n));
                if n == entry.name@ {
                    assert(is_first_named(names, i as int) && es[i as int].name@ == n);
                }
                if exists|j: int| 0 <= j < i + 1 && is_first_named(names, j) && es[j].name@ == n {
                    let j = choose|j: int| 0 <= j < i + 1 && is_first_named(names, j) && es[j].name@ == n;
                    if j < i {
                        assert(exists|j2: int| 0 <= j2 < i && is_first_named(names, j2) && es[j2].name@ == n);
                    }
                }
            }
        }
        i = i + 1;
    }
}

/// Pending runs compose.
pub proof fn lemma_pending_added_trans(
    a: Seq<PendingTypeReference>,
    b: Seq<PendingTypeReference>,
    c: Seq<PendingTypeReference>,
    v1: Seq<(Seq<char>, TypeRefView)>,
    v2: Seq<(Seq<char>, TypeRefView)>,
)
    requires
        pending_added(a, b, v1),
        pending_added(b, c, v2),
    ensures
        pending_added(a, c, v1 + v2),
{
    assert(c.subrange(0, a.len() as int) =~= b.subrange(0, a.len() as int));
    let x = b.subrange(a.len() as int, b.len() as int);
    let y = c.subrange(b.len() as int, c.len() as int);
    assert(c.subrange(a.len() as int, c.len() as int) =~= x + y);
    assert(pending_views(x + y) =~= pending_views(x) + pending_views(y));
}


/// A condition's availability reason mapping, checked once reasons are lowered.
#[derive(Debug)]
pub struct PendingConditionAvailabilityReasonMapping {
    pub condition: String,
    pub raw: RawConditionAvailabilityReasonMapping,
}

/// The return type a condition's `returns` stands for: `None` for `bool`
/// (also when absent or invalid), else the enum name.
pub open spec fn return_of(r: Option<String>) -> Option<Seq<char>> {
    match r {
        None => None,
        Some(v) => if v@ == "bool"@ {
            None
        } else {
            prefixed_name(v@, "enum:"@)
        },
    }
}

/// A condition returning `bool` has no enum return type, and one returning
/// `enum:NAME`, for a schema name `NAME`, returns that enum.
pub proof fn lemma_return_names(v: String, n: Seq<char>)
    ensures
        return_of(None) == None::<Seq<char>>,
        v@ == "bool"@ ==> return_of(Some(v)) == None::<Seq<char>>,
        v@ == "enum:"@ + n && spec_is_manifest_name(n) ==> return_of(Some(v)) == Some(n),
{
    reveal_strlit("bool");
    reveal_strlit("enum:");
    if v@ == "enum:"@ + n && spec_is_manifest_name(n) {
        assert(v@[0] != "bool"@[0]);
        assert(v@.subrange(0, 5) =~= "enum:"@);
        assert(v@.subrange(5, v@.len() as int) =~= n);
    }
}

/// View of a lowered return type.
pub open spec fn return_view(c: ConditionReturnType) -> Option<Seq<char>> {
    match c {
        ConditionReturnType::Bool => None,
        ConditionReturnType::Enum(n) => Some(n@),
    }
}

/// The problems of a condition's `returns`.
pub open spec fn return_problems(name: Seq<char>, r: Option<String>) -> Seq<Problem> {
    match r {
        None => Seq::empty(),
        Some(v) => if v@ == "bool"@ || prefixed_name(v@, "enum:"@) is Some {
            Seq::empty()
        } else {
            seq![Problem {
                code: "RECITE_SCHEMA004"@,
                presentation_id: "diagnostic-schema-004-invalid-condition-return"@,
                message: "condition '"@ + name + "' has invalid return type '"@ + v@ + "'"@,
                arguments: seq![("condition"@, ArgumentView::Text(name)), ("return_type"@, ArgumentView::Text(v@))],
            }]
        },
    }
}

/// The problems reported for condition entry `i`.
pub open spec fn condition_entry_problems(es: Seq<Named<RawConditionDefinition>>, i: int) -> Seq<Problem> {
    let names = entry_names(es);
    if !is_first_named(names, i) {
        name_problems(names, i, "condition name"@, "condition"@)
    } else {
        params_problems(owner_text("condition '"@, es[i].name@), es[i].value.params@, es[i].value.params@.len() as int)
            + return_problems(es[i].name@, es[i].value.returns)
    }
}

/// The problems reported for the first `n` condition entries.
pub open spec fn conditions_problems(es: Seq<Named<RawConditionDefinition>>, n: int) -> Seq<Problem>
    decreases n,
{
    if n <= 0 {
        Seq::empty()
    } else {
        conditions_problems(es, n - 1) + condition_entry_problems(es, n - 1)
    }
}

/// The pending type references of condition entry `i`.
pub open spec fn condition_entry_pending(es: Seq<Named<RawConditionDefinition>>, i: int) -> Seq<(Seq<char>, TypeRefView)> {
    if is_first_named(entry_names(es), i) {
        params_pending(owner_text("condition '"@, es[i].name@), es[i].value.params@, es[i].value.params@.len() as int)
            + match return_of(es[i].value.returns) {
            Some(n) => seq![("condition '"@ + es[i].name@ + "' return type"@, TypeRefView::Enum(n))],
            None => Seq::empty(),
        }
    } else {
        Seq::empty()
    }
}

/// The pending type references of the first `n` condition entries.
pub open spec fn conditions_pending(es: Seq<Named<RawConditionDefinition>>, n: int) -> Seq<(Seq<char>, TypeRefView)>
    decreases n,
{
    if n <= 0 {
        Seq::empty()
    } else {
        conditions_pending(es, n - 1) + condition_entry_pending(es, n - 1)
    }
}

/// Entry `i` is lowered and carries an availability reason mapping.
pub open spec fn has_pending_mapping(es: Seq<Named<RawConditionDefinition>>, i: int) -> bool {
    is_first_named(entry_names(es), i) && es[i].value.availability_reason is Some
}

/// The condition a condition entry lowers to (its mapping is attached later).
pub open spec fn condition_lowered(d: ConditionDefinition, e: Named<RawConditionDefinition>) -> bool {
    &&& params_lowered(owner_text("condition '"@, e.name@), d.params@, e.value.params@)
    &&& return_view(d.returns) == return_of(e.value.returns)
    &&& d.availability_reason is None
}

/// The mappings of the first `n` condition entries, in order: (condition, mapping).
pub open spec fn conditions_mappings(es: Seq<Named<RawConditionDefinition>>, n: int) -> Seq<(Seq<char>, RawConditionAvailabilityReasonMapping)>
    decreases n,
{
    if n <= 0 {
        Seq::empty()
    } else {
        conditions_mappings(es, n - 1) + if has_pending_mapping(es, n - 1) {
            seq![(es[n - 1].name@, es[n - 1].value.availability_reason->0)]
        } else {
            Seq::empty()
        }
    }
}

/// View of pending mappings: (condition, mapping).
pub open spec fn mappings_view(ps: Seq<PendingConditionAvailabilityReasonMapping>) -> Seq<(Seq<char>, RawConditionAvailabilityReasonMapping)> {
    ps.map_values(|p: PendingConditionAvailabilityReasonMapping| (p.condition@, p.raw))
}

/// Lower the `conditions` section: each entry with a new schema name becomes
/// a condition with its parameters and return type; availability reason
/// mappings are set aside to be checked once reasons are lowered.
pub fn lower_conditions(
    file: &str,
    source: &[char],
    spans: &mut ManifestSpans,
    entries: Vec<Named<RawConditionDefinition>>,
    schema: &mut ProjectSchema,
    diagnostics: &mut Vec<Diagnostic>,
    pending_type_refs: &mut Vec<PendingTypeReference>,
    pending_mappings: &mut Vec<PendingConditionAvailabilityReasonMapping>,
)
    ensures
        reported(old(diagnostics)@, final(diagnostics)@, conditions_problems(entries@, entries@.len() as int)),
        pending_added(old(pending_type_refs)@, final(pending_type_refs)@, conditions_pending(entries@, entries@.len() as int)),
        mappings_view(final(pending_mappings)@) == mappings_view(old(pending_mappings)@) + conditions_mappings(entries@, entries@.len() as int),
        same_but_conditions(*old(schema), *final(schema)),
        forall|n: Seq<char>| #[trigger] final(schema).conditions.has(n) <==> (old(schema).conditions.has(n)
            || exists|i: int| 0 <= i < entries@.len() && is_first_named(entry_names(entries@), i) && entries@[i].name@ == n),
        forall|i: int| 0 <= i < entries@.len() && #[trigger] is_first_named(entry_names(entries@), i) ==> (
            final(schema).conditions.spec_get(entries@[i].name@) matches Some(d) && condition_lowered(d, entries@[i])),
{
    let ghost es = entries@;
    let ghost names = entry_names(es);
    let ghost start = diagnostics@;
    let ghost pstart = pending_type_refs@;
    let ghost mstart = pending_mappings@;
    let ghost s0 = *schema;
    let mut entries = entries;
    let mut seen = StrSet::new();
    let mut i: usize = 0;
    proof {
        lemma_reported_none(start);
        assert(pending_type_refs@.subrange(0, pstart.len() as int) =~= pstart);
        assert(pending_views(pending_type_refs@.subrange(pstart.len() as int, pstart.len() as int)) =~= Seq::<(Seq<char>, TypeRefView)>::empty());
        assert(mappings_view(mstart) + conditions_mappings(es, 0) =~= mappings_view(mstart));
        assert(es.subrange(0, es.len() as int) =~= es);
    }
    let total = entries.len();
    while entries.len() > 0
        invariant
            total == es.len(),
            names == entry_names(es),
            i <= es.len(),
            entries@ == es.subrange(i as int, es.len() as int),
            same_but_conditions(s0, *schema),
            reported(start, diagnostics@, conditions_problems(es, i as int)),
            pending_added(pstart, pending_type_refs@, conditions_pending(es, i as int)),
            mappings_view(pending_mappings@) == mappings_view(mstart) + conditions_mappings(es, i as int),
            forall|n: Seq<char>| #[trigger] seen.elem_set().contains(n) <==> (spec_is_manifest_name(n) && names.take(i as int).contains(n)),
            forall|n: Seq<char>| #[trigger] schema.conditions.has(n) <==> (s0.conditions.has(n)
                || exists|j: int| 0 <= j < i && is_first_named(names, j) && es[j].name@ == n),
            forall|j: int| 0 <= j < i && #[trigger] is_first_named(names, j) ==> (schema.conditions.spec_get(es[j].name@) matches Some(d)
                && condition_lowered(d, es[j])),
        decreases entries@.len(),
    {
        let entry = entries.remove(0);
        let ghost mid = diagnostics@;
        let ghost pmid = pending_type_refs@;
        let ghost mmid = pending_mappings@;
        proof {
            assert(entry == es[i as int]);
            assert(entries@ =~= es.subrange(i + 1, es.len() as int));
            assert(names[i as int] == entry.name@);
            assert(names.take(i + 1) =~= names.take(i as int).push(entry.name@));
        }
        let name_span = spans.next_string_span(file, source, entry.name.as_str());
        let dup_span = name_span.copy();
        if !validate_manifest_name(diagnostics, "condition name", entry.name.as_str(), name_span) {
            proof {
                lemma_reported_push(start, mid, conditions_problems(es, i as int), diagnostics@.last(), problem_of(invalid_name_view("condition name"@, arbitrary())));
                assert(diagnostics@ =~= mid.push(diagnostics@.last()));
                assert forall|n: Seq<char>| #[trigger] seen.elem_set().contains(n) <==> (spec_is_manifest_name(n) && names.take(i + 1).contains(n)) by {
                    lemma_push_contains_seq_pub(names.take(i as int), entry.name@, n);
                }
                assert(conditions_pending(es, i + 1) =~= conditions_pending(es, i as int));
                assert(conditions_mappings(es, i + 1) =~= conditions_mappings(es, i as int));
            }
            i = i + 1;
            continue;
        }
        let ghost seen_before = seen;
        proof {
            assert(seen_before.elem_set().contains(entry.name@) == seen_before.elems().contains(entry.name@));
        }
        let fresh = seen.insert(crate::text::copy_string(&entry.name));
        proof {
            assert forall|n: Seq<char>| #[trigger] seen.elem_set().contains(n) <==> (spec_is_manifest_name(n) && names.take(i + 1).contains(n)) by {
                lemma_push_contains_seq_pub(names.take(i as int), entry.name@, n);
            }
        }
        if !fresh {
            duplicate_definition(diagnostics, "condition", entry.name.as_str(), dup_span);
            proof {
                lemma_reported_push(start, mid, conditions_problems(es, i as int), diagnostics@.last(), problem_of(duplicate_view("condition"@, entry.name@, arbitrary())));
                assert(diagnostics@ =~= mid.push(diagnostics@.last()));
                assert(conditions_pending(es, i + 1) =~= conditions_pending(es, i as int));
                assert(conditions_mappings(es, i + 1) =~= conditions_mappings(es, i as int));
            }
            i = i + 1;
            continue;
        }
        proof {
            assert(is_first_named(names, i as int));
        }
        let owner = crate::text::concat3("condition '", entry.name.as_str(), "'");
        let params = lower_params_at(file, source, spans, diagnostics, owner.as_str(), &entry.value.params, pending_type_refs);
        let ghost m2 = diagnostics@;
        let ghost p2 = pending_type_refs@;
        proof {
            lemma_reported_none(m2);
            assert(pending_type_refs@.subrange(0, p2.len() as int) =~= p2);
            assert(pending_views(pending_type_refs@.subrange(p2.len() as int, p2.len() as int)) =~= Seq::<(Seq<char>, TypeRefView)>::empty());
        }
        let ret_type = match &entry.value.returns {
            None => ConditionReturnType::Bool,
            Some(value) => {
                if crate::text::str_eq(value.as_str(), "bool") {
                    ConditionReturnType::Bool
                } else {
                    let return_span = spans.next_string_span(file, source, value.as_str());
                    match parse_enum_return(value.as_str()) {
                        Some(name) => {
                            let powner = crate::text::concat3("condition '", entry.name.as_str(), "' return type");
                            pending_type_refs.push(PendingTypeReference {
                                owner: powner,
                                type_ref: SchemaTypeRef::Enum(crate::text::copy_string(&name)),
                                span: return_span,
                            });
                            proof {
                                let added = pending_type_refs@.subrange(p2.len() as int, pending_type_refs@.len() as int);
                                assert(added =~= seq![pending_type_refs@.last()]);
                                assert(pending_views(added) =~= seq![(powner@, TypeRefView::Enum(name@))]);
                                assert(pending_type_refs@.subrange(0, p2.len() as int) =~= p2);
                            }
                            ConditionReturnType::Enum(name)
                        },
                        None => {
                            let mut message = crate::text::concat3("condition '", entry.name.as_str(), "' has invalid return type '");
                            crate::text::push_text(&mut message, value.as_str());
                            crate::text::push_text(&mut message, "'");
                            let args = vec![text_arg("condition", entry.name.as_str()), text_arg("return_type", value.as_str())];
                            let d = schema_diagnostic(crate::diagnostics::invalid_type_reference(), "diagnostic-schema-004-invalid-condition-return", message, return_span, args);
                            proof {
                                assert(crate::diagnostics::arguments_view(args@) =~= seq![
                                    ("condition"@, ArgumentView::Text(entry.name@)),
                                    ("return_type"@, ArgumentView::Text(value@)),
                                ]);
                                lemma_reported_push(m2, m2, Seq::empty(), d, return_problems(entry.name@, entry.value.returns)[0]);
                                assert(Seq::<Problem>::empty().push(return_problems(entry.name@, entry.value.returns)[0]) =~= return_problems(entry.name@, entry.value.returns));
                            }
                            diagnostics.push(d);
                            ConditionReturnType::Bool
                        },
                    }
                }
            },
        };
        proof {
            let pp = params_problems(owner@, entry.value.params@, entry.value.params@.len() as int);
            lemma_reported_trans(mid, m2, diagnostics@, pp, return_problems(entry.name@, entry.value.returns));
            assert(owner@ == owner_text("condition '"@, entry.name@));
            lemma_reported_trans(start, mid, diagnostics@, conditions_problems(es, i as int), condition_entry_problems(es, i as int));
            let ppend = params_pending(owner@, entry.value.params@, entry.value.params@.len() as int);
            let rpend = match return_of(entry.value.returns) {
                Some(n) => seq![("condition '"@ + entry.name@ + "' return type"@, TypeRefView::Enum(n))],
                None => Seq::<(Seq<char>, TypeRefView)>::empty(),
            };
            lemma_pending_added_trans(pmid, p2, pending_type_refs@, ppend, rpend);
            lemma_pending_added_trans(pstart, pmid, pending_type_refs@, conditions_pending(es, i as int), ppend + rpend);
            assert(conditions_pending(es, i + 1) =~= conditions_pending(es, i as int) + (ppend + rpend));
        }
        match entry.value.availability_reason {
            Some(mapping) => {
                pending_mappings.push(PendingConditionAvailabilityReasonMapping {
                    condition: crate::text::copy_string(&entry.name),
                    raw: mapping,
                });
                proof {
                    assert(mappings_view(pending_mappings@) =~= mappings_view(mmid).push((entry.name@, mapping)));
                    assert(conditions_mappings(es, i + 1) =~= conditions_mappings(es, i as int) + seq![(es[i as int].name@, es[i as int].value.availability_reason->0)]);
                }
            },
            None => {
                proof {
                    assert(conditions_mappings(es, i + 1) =~= conditions_mappings(es, i as int));
                }
            },
        }
        let ghost before = *schema;
        schema.conditions.insert(
            entry.name,
            ConditionDefinition { params, returns: ret_type, availability_reason: None },
        );
        proof {
            assert forall|j: int| 0 <= j < i + 1 && #[trigger] is_first_named(names, j) implies (schema.conditions.spec_get(es[j].name@) matches Some(d)
                && condition_lowered(d, es[j])) by {
                if j < i {
                    if names[j] == names[i as int] {
                        assert(names.take(i as int)[j] == names[i as int]);
                    }
                    assert(names[j] == es[j].name@);
                }
            }
            assert forall|n: Seq<char>| #[trigger] schema.conditions.has(n) <==> (s0.conditions.has(n)
                || exists|j: int| 0 <= j < i + 1 && is_first_named(names, j) && es[j].name@ == n) by {
                assert(schema.conditions.keys().to_set().contains(n) == schema.conditions.has(n));
                assert(before.conditions.keys().to_set().contains(n) == before.conditions.has(n));
                if n == es[i as int].name@ {
                    assert(is_first_named(names, i as int) && es[i as int].name@ == n);
                }
                if exists|j: int| 0 <= j < i + 1 && is_first_named(names, j) && es[j].name@ == n {
                    let j = choose|j: int| 0 <= j < i + 1 && is_first_named(names, j) && es[j].name@ == n;
                    if j < i {
                        assert(exists|j2: int| 0 <= j2 < i && is_first_named(names, j2) && es[j2].name@ == n);
                    }
                }
            }
        }
        i = i + 1;
    }
    proof {
        assert(i == es.len());
    }
}

} // verus!
