//! Lowering of enum types, speakers and markup, and of string value lists.
use vstd::prelude::*;
use crate::collections::{StrMap, StrSet};
use crate::diagnostics::{
    lemma_reported_none, lemma_reported_push, lemma_reported_trans, problem_of, reported, reports,
    schema_diagnostic, text_arg, ArgumentView, Diagnostic, Problem,
};
use crate::manifest::raw::{Named, RawMarkupDefinition, RawSpeakerDefinition, RawTypeDefinition};
use crate::manifest::spans::ManifestSpans;
use crate::manifest::validate::{
    duplicate_definition, duplicate_view, empty_value_view, invalid_name_view, spec_is_manifest_name,
    validate_manifest_name, validate_non_empty_string,
};
use crate::model::{
    EnumTypeDefinition, MarkupDefinition, ProjectSchema, SchemaTypeDefinition, SpeakerDefinition,
};

verus! {

/// Character views of a list of strings.
pub open spec fn texts(vs: Seq<String>) -> Seq<Seq<char>> {
    vs.map_values(|s: String| s@)
}

/// Names of a list of named entries.
pub open spec fn entry_names<T>(es: Seq<Named<T>>) -> Seq<Seq<char>> {
    es.map_values(|e: Named<T>| e.name@)
}

/// Entry `i` is lowered: its name is a schema name that no earlier entry has.
pub open spec fn is_first_named(names: Seq<Seq<char>>, i: int) -> bool {
    spec_is_manifest_name(names[i]) && !names.take(i).contains(names[i])
}

/// The problems reported for the name of entry `i`, if any.
pub open spec fn name_problems(names: Seq<Seq<char>>, i: int, field: Seq<char>, kind: Seq<char>) -> Seq<Problem> {
    if !spec_is_manifest_name(names[i]) {
        seq![problem_of(invalid_name_view(field, arbitrary()))]
    } else if names.take(i).contains(names[i]) {
        seq![problem_of(duplicate_view(kind, names[i], arbitrary()))]
    } else {
        Seq::empty()
    }
}

/// The problem of a value repeated in an owner's value list.
pub open spec fn repeated_value_problem(owner: Seq<char>, value: Seq<char>) -> Problem {
    Problem {
        code: "RECITE_SCHEMA003"@,
        presentation_id: "diagnostic-schema-003-value"@,
        message: owner + " repeats value '"@ + value + "'"@,
        arguments: seq![("owner"@, ArgumentView::Text(owner)), ("value"@, ArgumentView::Text(value))],
    }
}

/// The problems of an owner's value list: empty values, and repeats.
pub open spec fn value_problems(owner: Seq<char>, vs: Seq<Seq<char>>) -> Seq<Problem>
    decreases vs.len(),
{
    if vs.len() == 0 {
        Seq::empty()
    } else {
        let prev = vs.drop_last();
        let v = vs.last();
        value_problems(owner, prev) + if v.len() == 0 {
            seq![problem_of(empty_value_view("schema value"@, arbitrary()))]
        } else if prev.contains(v) {
            seq![repeated_value_problem(owner, v)]
        } else {
            Seq::<Problem>::empty()
        }
    }
}

/// The non-empty values of a list, as a set.
pub open spec fn nonempty_values(vs: Seq<Seq<char>>) -> Set<Seq<char>> {
    vs.to_set().filter(|v: Seq<char>| v.len() > 0)
}

/// The non-empty values of `values`, once each, reporting empty and repeated ones.
pub fn canonical_string_values_at(
    spans: &mut ManifestSpans,
    file: &str,
    source: &[char],
    diagnostics: &mut Vec<Diagnostic>,
    owner: &str,
    values: &Vec<String>,
) -> (r: StrSet)
    ensures
        r.elem_set() == nonempty_values(texts(values@)),
        reported(old(diagnostics)@, final(diagnostics)@, value_problems(owner@, texts(values@))),
{
    let ghost start = diagnostics@;
    let ghost vs = texts(values@);
    let mut canonical = StrSet::new();
    let mut i: usize = 0;
    proof {
        lemma_reported_none(start);
        assert(vs.take(0) =~= Seq::<Seq<char>>::empty());
        assert(canonical.elem_set() =~= nonempty_values(vs.take(0)));
    }
    while i < values.len()
        invariant
            i <= values@.len(),
            vs == texts(values@),
            canonical.elem_set() == nonempty_values(vs.take(i as int)),
            reported(start, diagnostics@, value_problems(owner@, vs.take(i as int))),
        decreases values@.len() - i,
    {
        let value = &values[i];
        let ghost mid = diagnostics@;
        let ghost prev = vs.take(i as int);
        proof {
            assert(vs.take(i + 1).drop_last() =~= prev);
            assert(vs.take(i + 1).last() == value@);
        }
        let span = spans.next_string_span(file, source, value.as_str());
        let d_span = span.copy();
        if !validate_non_empty_string(diagnostics, "schema value", value.as_str(), span) {
            proof {
                lemma_reported_push(start, mid, value_problems(owner@, prev), diagnostics@.last(), problem_of(empty_value_view("schema value"@, arbitrary())));
                assert(diagnostics@ =~= mid.push(diagnostics@.last()));
                assert(nonempty_values(vs.take(i + 1)) =~= nonempty_values(prev));
            }
        } else {
            let ghost before = canonical.elem_set();
            let fresh = canonical.insert(crate::text::copy_string(value));
            proof {
                assert(nonempty_values(vs.take(i + 1)) =~= nonempty_values(prev).insert(value@));
                assert(fresh == !prev.contains(value@)) by {
                    if prev.contains(value@) {
                        assert(nonempty_values(prev).contains(value@));
                    }
                    if before.contains(value@) {
                        assert(prev.to_set().contains(value@));
                    }
                }
            }
            if !fresh {
                let mut message = crate::text::concat2(owner, " repeats value '");
                crate::text::push_text(&mut message, value.as_str());
                crate::text::push_text(&mut message, "'");
                let args = vec![text_arg("owner", owner), text_arg("value", value.as_str())];
                let d = schema_diagnostic(
                    crate::diagnostics::duplicate_definition_code(),
                    "diagnostic-schema-003-value",
                    message,
                    d_span,
                    args,
                );
                proof {
                    assert(crate::diagnostics::arguments_view(args@) =~= seq![
                        ("owner"@, ArgumentView::Text(owner@)),
                        ("value"@, ArgumentView::Text(value@)),
                    ]);
                    lemma_reported_push(start, mid, value_problems(owner@, prev), d, repeated_value_problem(owner@, value@));
                }
                diagnostics.push(d);
            } else {
                proof {
                    assert(value_problems(owner@, prev) + Seq::<Problem>::empty() =~= value_problems(owner@, prev));
                }
            }
        }
        i = i + 1;
    }
    proof {
        assert(vs.take(values@.len() as int) =~= vs);
    }
    canonical
}


/// The problem of a type definition with a kind other than `enum`.
pub open spec fn type_kind_problem(name: Seq<char>, kind: Seq<char>) -> Problem {
    Problem {
        code: "RECITE_SCHEMA001"@,
        presentation_id: "diagnostic-schema-001-type-kind"@,
        message: "type '"@ + name + "' uses unsupported kind '"@ + kind + "'"@,
        arguments: seq![("type"@, ArgumentView::Text(name)), ("kind"@, ArgumentView::Text(kind))],
    }
}

/// Type entry `i` becomes an enum type.
pub open spec fn type_kept(es: Seq<Named<RawTypeDefinition>>, i: int) -> bool {
    is_first_named(entry_names(es), i) && es[i].value.kind@ == "enum"@
}

/// The problems reported for type entry `i`.
pub open spec fn type_entry_problems(es: Seq<Named<RawTypeDefinition>>, i: int) -> Seq<Problem> {
    let names = entry_names(es);
    if !is_first_named(names, i) {
        name_problems(names, i, "type name"@, "type"@)
    } else if es[i].value.kind@ != "enum"@ {
        seq![type_kind_problem(es[i].name@, es[i].value.kind@)]
    } else {
        value_problems("enum '"@ + es[i].name@ + "'"@, texts(es[i].value.values@))
    }
}

/// The problems reported for the first `n` type entries, in order.
pub open spec fn types_problems(es: Seq<Named<RawTypeDefinition>>, n: int) -> Seq<Problem>
    decreases n,
{
    if n <= 0 {
        Seq::empty()
    } else {
        types_problems(es, n - 1) + type_entry_problems(es, n - 1)
    }
}

/// All fields of two schemas but the types agree.
pub open spec fn same_but_types(a: ProjectSchema, b: ProjectSchema) -> bool {
    &&& a.schema_version == b.schema_version
    &&& a.registries == b.registries
    &&& a.speakers == b.speakers
    &&& a.conditions == b.conditions
    &&& a.availability_reasons == b.availability_reasons
    &&& a.effects == b.effects
    &&& a.metadata_domains == b.metadata_domains
    &&& a.metadata == b.metadata
    &&& a.projection_queries == b.projection_queries
    &&& a.presentation_projectors == b.presentation_projectors
    &&& a.markup == b.markup
    &&& a.producer_metadata == b.producer_metadata
}

/// The enum values a type definition holds.
pub open spec fn enum_values(d: SchemaTypeDefinition) -> Set<Seq<char>> {
    match d {
        SchemaTypeDefinition::Enum(e) => e.values.elem_set(),
    }
}

proof fn lemma_first_named_distinct(names: Seq<Seq<char>>, j: int, i: int)
    requires
        0 <= j < i < names.len(),
        is_first_named(names, i),
    ensures
        names[j] != names[i],
{
    if names[j] == names[i] {
        assert(names.take(i)[j] == names[i]);
    }
}

/// Lower the `types` section: each entry with a new schema name and kind
/// `enum` becomes an enum type of its non-empty values.
pub fn lower_types(
    file: &str,
    source: &[char],
    spans: &mut ManifestSpans,
    entries: Vec<Named<RawTypeDefinition>>,
    schema: &mut ProjectSchema,
    diagnostics: &mut Vec<Diagnostic>,
)
    ensures
        reported(old(diagnostics)@, final(diagnostics)@, types_problems(entries@, entries@.len() as int)),
        same_but_types(*old(schema), *final(schema)),
        forall|n: Seq<char>| #[trigger] final(schema).types.has(n) <==> (old(schema).types.has(n)
            || exists|i: int| 0 <= i < entries@.len() && type_kept(entries@, i) && entries@[i].name@ == n),
        forall|i: int| 0 <= i < entries@.len() && #[trigger] type_kept(entries@, i) ==> (
            final(schema).types.spec_get(entries@[i].name@) matches Some(d) && enum_values(d)
                == nonempty_values(texts(entries@[i].value.values@))),
{
    let ghost es = entries@;
    let ghost names = entry_names(es);
    let ghost start = diagnostics@;
    let ghost s0 = *schema;
    let mut seen = StrSet::new();
    let mut i: usize = 0;
    proof {
        lemma_reported_none(start);
    }
    while i < entries.len()
        invariant
            es == entries@,
            names == entry_names(es),
            i <= es.len(),
            same_but_types(s0, *schema),
            reported(start, diagnostics@, types_problems(es, i as int)),
            forall|n: Seq<char>| #[trigger] seen.elem_set().contains(n) <==> (spec_is_manifest_name(n) && names.take(i as int).contains(n)),
            forall|n: Seq<char>| #[trigger] schema.types.has(n) <==> (s0.types.has(n)
                || exists|j: int| 0 <= j < i && type_kept(es, j) && es[j].name@ == n),
            forall|j: int| 0 <= j < i && #[trigger] type_kept(es, j) ==> (schema.types.spec_get(es[j].name@) matches Some(d)
                && enum_values(d) == nonempty_values(texts(es[j].value.values@))),
        decreases es.len() - i,
    {
        let entry = &entries[i];
        let ghost mid = diagnostics@;
        proof {
            assert(names[i as int] == entry.name@);
            assert(names.take(i + 1) =~= names.take(i as int).push(entry.name@));
        }
        let name_span = spans.next_string_span(file, source, entry.name.as_str());
        let dup_span = name_span.copy();
        if !validate_manifest_name(diagnostics, "type name", entry.name.as_str(), name_span) {
            proof {
                lemma_reported_push(start, mid, types_problems(es, i as int), diagnostics@.last(), problem_of(invalid_name_view("type name"@, arbitrary())));
                assert(diagnostics@ =~= mid.push(diagnostics@.last()));
                assert forall|n: Seq<char>| #[trigger] seen.elem_set().contains(n) <==> (spec_is_manifest_name(n) && names.take(i + 1).contains(n)) by {
                    lemma_push_contains_seq(names.take(i as int), entry.name@, n);
                }
                assert(!type_kept(es, i as int));
            }
            i = i + 1;
            continue;
        }
        let ghost seen_before = seen;
        proof {
            assert(seen_before.elem_set().contains(entry.name@) == seen_before.elems().contains(entry.name@));
            assert(seen_before.elem_set().contains(entry.name@) == names.take(i as int).contains(entry.name@));
        }
        let fresh = seen.insert(crate::text::copy_string(&entry.name));
        proof {
            assert(fresh == !names.take(i as int).contains(entry.name@));
            assert forall|n: Seq<char>| #[trigger] seen.elem_set().contains(n) <==> (spec_is_manifest_name(n) && names.take(i + 1).contains(n)) by {
                lemma_push_contains_seq(names.take(i as int), entry.name@, n);
            }
        }
        if !fresh {
            duplicate_definition(diagnostics, "type", entry.name.as_str(), dup_span);
            proof {
                lemma_reported_push(start, mid, types_problems(es, i as int), diagnostics@.last(), problem_of(duplicate_view("type"@, entry.name@, arbitrary())));
                assert(diagnostics@ =~= mid.push(diagnostics@.last()));
                assert(!type_kept(es, i as int));
            }
            i = i + 1;
            continue;
        }
        let kind_span = spans.next_string_span(file, source, entry.value.kind.as_str());
        if !crate::text::str_eq(entry.value.kind.as_str(), "enum") {
            let mut message = crate::text::concat3("type '", entry.name.as_str(), "' uses unsupported kind '");
            crate::text::push_text(&mut message, entry.value.kind.as_str());
            crate::text::push_text(&mut message, "'");
            let args = vec![text_arg("type", entry.name.as_str()), text_arg("kind", entry.value.kind.as_str())];
            let d = schema_diagnostic(
                crate::diagnostics::malformed_shape(),
                "diagnostic-schema-001-type-kind",
                message,
                kind_span,
                args,
            );
            proof {
                assert(crate::diagnostics::arguments_view(args@) =~= seq![
                    ("type"@, ArgumentView::Text(entry.name@)),
                    ("kind"@, ArgumentView::Text(entry.value.kind@)),
                ]);
                lemma_reported_push(start, mid, types_problems(es, i as int), d, type_kind_problem(entry.name@, entry.value.kind@));
                assert(!type_kept(es, i as int));
            }
            diagnostics.push(d);
            i = i + 1;
            continue;
        }
        let owner = crate::text::concat3("enum '", entry.name.as_str(), "'");
        let values = canonical_string_values_at(spans, file, source, diagnostics, owner.as_str(), &entry.value.values);
        proof {
            lemma_reported_trans(start, mid, diagnostics@, types_problems(es, i as int), type_entry_problems(es, i as int));
            assert(type_kept(es, i as int));
        }
        let ghost before = *schema;
        schema.types.insert(
            crate::text::copy_string(&entry.name),
            SchemaTypeDefinition::Enum(EnumTypeDefinition { values }),
        );
        proof {
            assert forall|j: int| 0 <= j < i + 1 && #[trigger] type_kept(es, j) implies (schema.types.spec_get(es[j].name@) matches Some(d)
                && enum_values(d) == nonempty_values(texts(es[j].value.values@))) by {
                if j < i {
                    lemma_first_named_distinct(names, j, i as int);
                    assert(names[j] == es[j].name@);
                }
            }
            assert forall|n: Seq<char>| #[trigger] schema.types.has(n) <==> (s0.types.has(n)
                || exists|j: int| 0 <= j < i + 1 && type_kept(es, j) && es[j].name@ == n) by {
                assert(schema.types.keys().to_set().contains(n) == schema.types.has(n));
                assert(before.types.keys().to_set().contains(n) == before.types.has(n));
                if n == entry.name@ {
                    assert(type_kept(es, i as int) && es[i as int].name@ == n);
                }
                if exists|j: int| 0 <= j < i + 1 && type_kept(es, j) && es[j].name@ == n {
                    let j = choose|j: int| 0 <= j < i + 1 && type_kept(es, j) && es[j].name@ == n;
                    if j < i {
                        assert(exists|j2: int| 0 <= j2 < i && type_kept(es, j2) && es[j2].name@ == n);
                    }
                }
            }
        }
        i = i + 1;
    }
}

proof fn lemma_push_contains_seq(s: Seq<Seq<char>>, x: Seq<char>, n: Seq<char>)
    ensures
        s.push(x).contains(n) <==> (s.contains(n) || n == x),
{
    if s.push(x).contains(n) {
        let k = s.push(x).index_of(n);
        if k < s.len() {
            assert(s[k] == n);
        }
    }
    if s.contains(n) {
        let k = s.index_of(n);
        assert(s.push(x)[k] == n);
    }
    if n == x {
        assert(s.push(x)[s.len() as int] == x);
    }
}


/// All fields of two schemas but the speakers agree.
pub open spec fn same_but_speakers(a: ProjectSchema, b: ProjectSchema) -> bool {
    &&& a.schema_version == b.schema_version
    &&& a.types == b.types
    &&& a.registries == b.registries
    &&& a.conditions == b.conditions
    &&& a.availability_reasons == b.availability_reasons
    &&& a.effects == b.effects
    &&& a.metadata_domains == b.metadata_domains
    &&& a.metadata == b.metadata
    &&& a.projection_queries == b.projection_queries
    &&& a.presentation_projectors == b.presentation_projectors
    &&& a.markup == b.markup
    &&& a.producer_metadata == b.producer_metadata
}

/// All fields of two schemas but the markup agree.
pub open spec fn same_but_markup(a: ProjectSchema, b: ProjectSchema) -> bool {
    &&& a.schema_version == b.schema_version
    &&& a.types == b.types
    &&& a.registries == b.registries
    &&& a.speakers == b.speakers
    &&& a.conditions == b.conditions
    &&& a.availability_reasons == b.availability_reasons
    &&& a.effects == b.effects
    &&& a.metadata_domains == b.metadata_domains
    &&& a.metadata == b.metadata
    &&& a.projection_queries == b.projection_queries
    &&& a.presentation_projectors == b.presentation_projectors
    &&& a.producer_metadata == b.producer_metadata
}

/// The problems reported for speaker entry `i`.
pub open spec fn speaker_entry_problems(es: Seq<Named<RawSpeakerDefinition>>, i: int) -> Seq<Problem> {
    let names = entry_names(es);
    if !is_first_named(names, i) {
        name_problems(names, i, "speaker name"@, "speaker"@)
    } else {
        match es[i].value.display_name {
            Some(d) => if d@.len() == 0 {
                seq![problem_of(empty_value_view("speaker display_name"@, arbitrary()))]
            } else {
                Seq::empty()
            },
            None => Seq::empty(),
        }
    }
}

/// The problems reported for the first `n` speaker entries, in order.
pub open spec fn speakers_problems(es: Seq<Named<RawSpeakerDefinition>>, n: int) -> Seq<Problem>
    decreases n,
{
    if n <= 0 {
        Seq::empty()
    } else {
        speakers_problems(es, n - 1) + speaker_entry_problems(es, n - 1)
    }
}

/// Lower the `speakers` section: each entry with a new schema name becomes a
/// speaker with its display name; an empty display name is reported.
pub fn lower_speakers(
    file: &str,
    source: &[char],
    spans: &mut ManifestSpans,
    entries: Vec<Named<RawSpeakerDefinition>>,
    schema: &mut ProjectSchema,
    diagnostics: &mut Vec<Diagnostic>,
)
    ensures
        reported(old(diagnostics)@, final(diagnostics)@, speakers_problems(entries@, entries@.len() as int)),
        same_but_speakers(*old(schema), *final(schema)),
        forall|n: Seq<char>| #[trigger] final(schema).speakers.has(n) <==> (old(schema).speakers.has(n)
            || exists|i: int| 0 <= i < entries@.len() && is_first_named(entry_names(entries@), i) && entries@[i].name@ == n),
        forall|i: int| 0 <= i < entries@.len() && #[trigger] is_first_named(entry_names(entries@), i) ==> (
            final(schema).speakers.spec_get(entries@[i].name@) matches Some(d)
                && crate::model::canonical::opt_text(d.display_name) == crate::model::canonical::opt_text(entries@[i].value.display_name)),
{
    let ghost es = entries@;
    let ghost names = entry_names(es);
    let ghost start = diagnostics@;
    let ghost s0 = *schema;
    let mut seen = StrSet::new();
    let mut i: usize = 0;
    proof {
        lemma_reported_none(start);
    }
    while i < entries.len()
        invariant
            es == entries@,
            names == entry_names(es),
            i <= es.len(),
            same_but_speakers(s0, *schema),
            reported(start, diagnostics@, speakers_problems(es, i as int)),
            forall|n: Seq<char>| #[trigger] seen.elem_set().contains(n) <==> (spec_is_manifest_name(n) && names.take(i as int).contains(n)),
            forall|n: Seq<char>| #[trigger] schema.speakers.has(n) <==> (s0.speakers.has(n)
                || exists|j: int| 0 <= j < i && is_first_named(names, j) && es[j].name@ == n),
            forall|j: int| 0 <= j < i && #[trigger] is_first_named(names, j) ==> (schema.speakers.spec_get(es[j].name@) matches Some(d)
                && crate::model::canonical::opt_text(d.display_name) == crate::model::canonical::opt_text(es[j].value.display_name)),
        decreases es.len() - i,
    {
        let entry = &entries[i];
        let ghost mid = diagnostics@;
        proof {
            assert(names[i as int] == entry.name@);
            assert(names.take(i + 1) =~= names.take(i as int).push(entry.name@));
        }
        let name_span = spans.next_string_span(file, source, entry.name.as_str());
        let dup_span = name_span.copy();
        if !validate_manifest_name(diagnostics, "speaker name", entry.name.as_str(), name_span) {
            proof {
                lemma_reported_push(start, mid, speakers_problems(es, i as int), diagnostics@.last(), problem_of(invalid_name_view("speaker name"@, arbitrary())));
                assert(diagnostics@ =~= mid.push(diagnostics@.last()));
                assert forall|n: Seq<char>| #[trigger] seen.elem_set().contains(n) <==> (spec_is_manifest_name(n) && names.take(i + 1).contains(n)) by {
                    lemma_push_contains_seq(names.take(i as int), entry.name@, n);
                }
            }
            i = i + 1;
            continue;
        }
        let ghost seen_before = seen;
        proof {
            assert(seen_before.elem_set().contains(entry.name@) == seen_before.elems().contains(entry.name@));
        }
        let fresh = seen.insert(crate::text::copy_string(&entry.name));
        proof {
            assert forall|n: Seq<char>| #[trigger] seen.elem_set().contains(n) <==> (spec_is_manifest_name(n) && names.take(i + 1).contains(n)) by {
                lemma_push_contains_seq(names.take(i as int), entry.name@, n);
            }
        }
        if !fresh {
            duplicate_definition(diagnostics, "speaker", entry.name.as_str(), dup_span);
            proof {
                lemma_reported_push(start, mid, speakers_problems(es, i as int), diagnostics@.last(), problem_of(duplicate_view("speaker"@, entry.name@, arbitrary())));
                assert(diagnostics@ =~= mid.push(diagnostics@.last()));
            }
            i = i + 1;
            continue;
        }
        let display_name: Option<String> = match &entry.value.display_name {
            Some(d) => {
                let d_span = spans.next_string_span(file, source, d.as_str());
                if !validate_non_empty_string(diagnostics, "speaker display_name", d.as_str(), d_span) {
                    proof {
                        lemma_reported_push(start, mid, speakers_problems(es, i as int), diagnostics@.last(), problem_of(empty_value_view("speaker display_name"@, arbitrary())));
                        assert(diagnostics@ =~= mid.push(diagnostics@.last()));
                    }
                } else {
                    proof {
                        assert(speakers_problems(es, i as int) + Seq::<Problem>::empty() =~= speakers_problems(es, i as int));
                    }
                }
                Some(crate::text::copy_string(d))
            },
            None => {
                proof {
                    assert(speakers_problems(es, i as int) + Seq::<Problem>::empty() =~= speakers_problems(es, i as int));
                }
                None
            },
        };
        let ghost before = *schema;
        schema.speakers.insert(crate::text::copy_string(&entry.name), SpeakerDefinition { display_name });
        proof {
            assert forall|j: int| 0 <= j < i + 1 && #[trigger] is_first_named(names, j) implies (schema.speakers.spec_get(es[j].name@) matches Some(d)
                && crate::model::canonical::opt_text(d.display_name) == crate::model::canonical::opt_text(es[j].value.display_name)) by {
                if j < i {
                    lemma_first_named_distinct(names, j, i as int);
                    assert(names[j] == es[j].name@);
                }
            }
            assert forall|n: Seq<char>| #[trigger] schema.speakers.has(n) <==> (s0.speakers.has(n)
                || exists|j: int| 0 <= j < i + 1 && is_first_named(names, j) && es[j].name@ == n) by {
                assert(schema.speakers.keys().to_set().contains(n) == schema.speakers.has(n));
                assert(before.speakers.keys().to_set().contains(n) == before.speakers.has(n));
                if n == entry.name@ {
                    assert(is_first_named(names, i as int) && es[i as int].name@ == n);
                }
                if exists|j: int| 0 <= j < i + 1 && is_first_named(names, j) && es[j].name@ == n {
                    let j = choose|j: int| 0 <= j < i + 1 && is_first_named(names, j) && es[j].name@ == n;
                    if j < i {
                        assert(exists|j2: int| 0 <= j2 < i && is_first_named(names, j2) && es[j2].name@ == n);
                    }
                }
            }
        }
        i = i + 1;
    }
}

/// The problems reported for the first `n` markup entries, in order.
pub open spec fn markup_problems(es: Seq<Named<RawMarkupDefinition>>, n: int) -> Seq<Problem>
    decreases n,
{
    if n <= 0 {
        Seq::empty()
    } else {
        markup_problems(es, n - 1) + name_problems(entry_names(es), n - 1, "markup name"@, "markup"@)
    }
}

/// The markup definition a raw markup entry stands for: nesting is allowed
/// unless the entry says otherwise.
pub open spec fn markup_of(r: RawMarkupDefinition) -> MarkupDefinition {
    MarkupDefinition {
        requires_closing: r.requires_closing,
        translatable: r.translatable,
        allows_nesting: match r.allows_nesting {
            Some(b) => b,
            None => true,
        },
    }
}

/// Lower the `markup` section: each entry with a new schema name becomes a
/// markup tag.
pub fn lower_markup(
    file: &str,
    source: &[char],
    spans: &mut ManifestSpans,
    entries: Vec<Named<RawMarkupDefinition>>,
    schema: &mut ProjectSchema,
    diagnostics: &mut Vec<Diagnostic>,
)
    ensures
        reported(old(diagnostics)@, final(diagnostics)@, markup_problems(entries@, entries@.len() as int)),
        same_but_markup(*old(schema), *final(schema)),
        forall|n: Seq<char>| #[trigger] final(schema).markup.has(n) <==> (old(schema).markup.has(n)
            || exists|i: int| 0 <= i < entries@.len() && is_first_named(entry_names(entries@), i) && entries@[i].name@ == n),
        forall|i: int| 0 <= i < entries@.len() && #[trigger] is_first_named(entry_names(entries@), i) ==>
            final(schema).markup.spec_get(entries@[i].name@) == Some(markup_of(entries@[i].value)),
        forall|i: int| 0 <= i < entries@.len() && #[trigger] is_first_named(entry_names(entries@), i) ==> (
            final(schema).markup.spec_get(entries@[i].name@) matches Some(m) && {
                &&& m.requires_closing == entries@[i].value.requires_closing
                &&& m.translatable == entries@[i].value.translatable
                &&& (entries@[i].value.allows_nesting is None ==> m.allows_nesting == true)
                &&& (entries@[i].value.allows_nesting matches Some(b) ==> m.allows_nesting == b)
            }),
{
    let ghost es = entries@;
    let ghost names = entry_names(es);
    let ghost start = diagnostics@;
    let ghost s0 = *schema;
    let mut seen = StrSet::new();
    let mut i: usize = 0;
    proof {
        lemma_reported_none(start);
    }
    while i < entries.len()
        invariant
            es == entries@,
            names == entry_names(es),
            i <= es.len(),
            same_but_markup(s0, *schema),
            reported(start, diagnostics@, markup_problems(es, i as int)),
            forall|n: Seq<char>| #[trigger] seen.elem_set().contains(n) <==> (spec_is_manifest_name(n) && names.take(i as int).contains(n)),
            forall|n: Seq<char>| #[trigger] schema.markup.has(n) <==> (s0.markup.has(n)
                || exists|j: int| 0 <= j < i && is_first_named(names, j) && es[j].name@ == n),
            forall|j: int| 0 <= j < i && #[trigger] is_first_named(names, j) ==>
                schema.markup.spec_get(es[j].name@) == Some(markup_of(es[j].value)),
        decreases es.len() - i,
    {
        let entry = &entries[i];
        let ghost mid = diagnostics@;
        proof {
            assert(names[i as int] == entry.name@);
            assert(names.take(i + 1) =~= names.take(i as int).push(entry.name@));
        }
        let name_span = spans.next_string_span(file, source, entry.name.as_str());
        let dup_span = name_span.copy();
        if !validate_manifest_name(diagnostics, "markup name", entry.name.as_str(), name_span) {
            proof {
                lemma_reported_push(start, mid, markup_problems(es, i as int), diagnostics@.last(), problem_of(invalid_name_view("markup name"@, arbitrary())));
                assert(diagnostics@ =~= mid.push(diagnostics@.last()));
                assert forall|n: Seq<char>| #[trigger] seen.elem_set().contains(n) <==> (spec_is_manifest_name(n) && names.take(i + 1).contains(n)) by {
                    lemma_push_contains_seq(names.take(i as int), entry.name@, n);
                }
            }
            i = i + 1;
            continue;
        }
        let ghost seen_before = seen;
        proof {
            assert(seen_before.elem_set().contains(entry.name@) == seen_before.elems().contains(entry.name@));
        }
        let fresh = seen.insert(crate::text::copy_string(&entry.name));
        proof {
            assert forall|n: Seq<char>| #[trigger] seen.elem_set().contains(n) <==> (spec_is_manifest_name(n) && names.take(i + 1).contains(n)) by {
                lemma_push_contains_seq(names.take(i as int), entry.name@, n);
            }
        }
        if !fresh {
            duplicate_definition(diagnostics, "markup", entry.name.as_str(), dup_span);
            proof {
                lemma_reported_push(start, mid, markup_problems(es, i as int), diagnostics@.last(), problem_of(duplicate_view("markup"@, entry.name@, arbitrary())));
                assert(diagnostics@ =~= mid.push(diagnostics@.last()));
            }
            i = i + 1;
            continue;
        }
        proof {
            assert(markup_problems(es, i as int) + Seq::<Problem>::empty() =~= markup_problems(es, i as int));
        }
        let allows_nesting = match entry.value.allows_nesting {
            Some(b) => b,
            None => true,
        };
        let ghost before = *schema;
        schema.markup.insert(
            crate::text::copy_string(&entry.name),
            MarkupDefinition {
                requires_closing: entry.value.requires_closing,
                translatable: entry.value.translatable,
                allows_nesting,
            },
        );
        proof {
            assert forall|j: int| 0 <= j < i + 1 && #[trigger] is_first_named(names, j) implies
                schema.markup.spec_get(es[j].name@) == Some(markup_of(es[j].value)) by {
                if j < i {
                    lemma_first_named_distinct(names, j, i as int);
                    assert(names[j] == es[j].name@);
                }
            }
            assert forall|n: Seq<char>| #[trigger] schema.markup.has(n) <==> (s0.markup.has(n)
                || exists|j: int| 0 <= j < i + 1 && is_first_named(names, j) && es[j].name@ == n) by {
                assert(schema.markup.keys().to_set().contains(n) == schema.markup.has(n));
                assert(before.markup.keys().to_set().contains(n) == before.markup.has(n));
                if n == entry.name@ {
                    assert(is_first_named(names, i as int) && es[i as int].name@ == n);
                }
                if exists|j: int| 0 <= j < i + 1 && is_first_named(names, j) && es[j].name@ == n {
                    let j = choose|j: int| 0 <= j < i + 1 && is_first_named(names, j) && es[j].name@ == n;
                    if j < i {
                        assert(exists|j2: int| 0 <= j2 < i && is_first_named(names, j2) && es[j2].name@ == n);
                    }
                }
            }
        }
        i = i + 1;
    }
}


/// Membership after a push, for text sequences.
pub proof fn lemma_push_contains_seq_pub(s: Seq<Seq<char>>, x: Seq<char>, n: Seq<char>)
    ensures
        s.push(x).contains(n) <==> (s.contains(n) || n == x),
{
    lemma_push_contains_seq(s, x, n);
}

} // verus!
