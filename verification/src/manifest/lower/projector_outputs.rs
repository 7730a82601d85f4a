//! Presentation projector outputs: their target, kind and slot, their
//! label with its arguments, and their typed fields.
use vstd::prelude::*;
use crate::collections::{StrMap, StrSet};
use crate::diagnostics::{
    lemma_reported_none, lemma_reported_push, lemma_reported_trans, problem_of, problem_with,
    report, reported, text_arg, ArgumentView, Diagnostic, Problem, SourceSpan,
};
use crate::manifest::lower::availability::{
    extract_placeholder_names, placeholder_error_text, placeholders_from, PlaceholderErrorView,
    PlaceholderSyntaxKind,
};
use crate::manifest::lower::bindings::LiteralView;
use crate::manifest::lower::definitions::{entry_names, lemma_push_contains_seq_pub};
use crate::manifest::lower::domains::shape_problem;
use crate::manifest::lower::parameters::{
    invalid_type_problem, lower_type_reference_with_context, lowered_type, pending_added,
    pending_views, TypeReferenceContext,
};
use crate::manifest::lower::producer::empty_field_problems;
use crate::manifest::lower::projector_inputs::{
    lower_literal_for_type, projection_literal, projection_literal_problems,
};
use crate::manifest::lower::projector_queries::{
    input_type_views, lower_input_ref, raw_ref_view, ref_problems, ref_view, types_lowered,
    validate_ref_type, RefView,
};
use crate::manifest::raw::{
    Named, RawPresentationAffordanceFieldDefinition, RawPresentationAffordanceFieldSource,
    RawPresentationAffordanceOutputDefinition, RawPresentationLabelArgDefinition,
    RawPresentationLabelDefinition,
};
use crate::manifest::spans::ManifestSpans;
use crate::manifest::validate::{
    invalid_name_view, spec_is_manifest_name, type_ref_at, validate_manifest_name,
    validate_non_empty_string, PendingTypeReference,
};
use crate::model::{
    PresentationAffordanceFieldDefinition, PresentationAffordanceFieldSource,
    PresentationAffordanceOutputDefinition, PresentationLabelArgDefinition,
    PresentationLabelDefinition, ProjectSchema, ProjectionInput, ProjectionInputRef,
    ProjectionOutputTarget, SchemaTypeRef, TypeRefView,
};
use crate::order::sorted_texts_of;

verus! {

// ---------------------------------------------------------------------------
// Typed bindings of an output.

/// `projector '<p>' output '<o>' binding '<b>'`.
pub open spec fn binding_owner(p: Seq<char>, o: Seq<char>, b: Seq<char>) -> Seq<char> {
    "projector '"@ + p + "' output '"@ + o + "' binding '"@ + b + "'"@
}

/// The problems of a binding's type reference.
pub open spec fn binding_type_problems(p: Seq<char>, o: Seq<char>, b: Seq<char>, v: Seq<char>) -> Seq<Problem> {
    if type_ref_at(v, 0) is Some {
        Seq::empty()
    } else {
        seq![problem_with(
            "RECITE_SCHEMA004"@,
            "diagnostic-schema-004-invalid-projection-output-type"@,
            binding_owner(p, o, b) + " has invalid type reference '"@ + v + "'"@,
            seq![("projector"@, ArgumentView::Text(p)), ("output"@, ArgumentView::Text(o)), ("binding"@, ArgumentView::Text(b)),
                ("type_ref"@, ArgumentView::Text(v))],
        )]
    }
}

/// The pending type reference of a binding, when its type parses.
pub open spec fn binding_pending(p: Seq<char>, o: Seq<char>, b: Seq<char>, v: Seq<char>) -> Seq<(Seq<char>, TypeRefView)> {
    match type_ref_at(v, 0) {
        Some(t) => seq![(binding_owner(p, o, b), t)],
        None => Seq::empty(),
    }
}

/// Lower a binding's type reference; a valid one is left to check against the declared types.
pub fn lower_output_type_ref(
    file: &str,
    source: &[char],
    spans: &mut ManifestSpans,
    diagnostics: &mut Vec<Diagnostic>,
    p: &str,
    o: &str,
    b: &str,
    raw_type: &str,
    pending_type_refs: &mut Vec<PendingTypeReference>,
) -> (r: SchemaTypeRef)
    ensures
        r@ == lowered_type(raw_type@),
        reported(old(diagnostics)@, final(diagnostics)@, binding_type_problems(p@, o@, b@, raw_type@)),
        pending_added(old(pending_type_refs)@, final(pending_type_refs)@, binding_pending(p@, o@, b@, raw_type@)),
{
    let ghost start = diagnostics@;
    let ghost pstart = pending_type_refs@;
    let span = spans.next_string_span(file, source, raw_type);
    let mut owner = crate::text::concat3("projector '", p, "' output '");
    crate::text::push_text(&mut owner, o);
    crate::text::push_text(&mut owner, "' binding '");
    crate::text::push_text(&mut owner, b);
    crate::text::push_text(&mut owner, "'");
    proof {
        assert(owner@ =~= binding_owner(p@, o@, b@));
    }
    let message = crate::text::concat3(owner.as_str(), " has invalid type reference '", raw_type);
    let mut message = message;
    crate::text::push_text(&mut message, "'");
    let ctx = TypeReferenceContext::ProjectionOutput {
        projector: String::from_str(p),
        output: String::from_str(o),
        binding: String::from_str(b),
    };
    let ghost ctxv = ctx;
    let ghost msg = message@;
    let (t, t_span, valid) = lower_type_reference_with_context(diagnostics, raw_type, span, message, ctx);
    proof {
        if !valid {
            let want = binding_type_problems(p@, o@, b@, raw_type@)[0];
            assert(invalid_type_problem(ctxv, raw_type@, msg).arguments =~= want.arguments);
            assert(msg =~= want.message);
            assert(seq![invalid_type_problem(ctxv, raw_type@, msg)] =~= binding_type_problems(p@, o@, b@, raw_type@));
        } else {
            lemma_reported_none(start);
            assert(binding_type_problems(p@, o@, b@, raw_type@) =~= Seq::<Problem>::empty());
        }
    }
    if valid {
        pending_type_refs.push(PendingTypeReference { owner, type_ref: t.copy(), span: t_span });
        proof {
            let added = pending_type_refs@.subrange(pstart.len() as int, pending_type_refs@.len() as int);
            assert(added =~= seq![pending_type_refs@.last()]);
            assert(pending_views(added) =~= binding_pending(p@, o@, b@, raw_type@));
            assert(pending_type_refs@.subrange(0, pstart.len() as int) =~= pstart);
        }
    } else {
        proof {
            assert(pending_type_refs@.subrange(0, pstart.len() as int) =~= pstart);
            assert(pending_views(pending_type_refs@.subrange(pstart.len() as int, pstart.len() as int)) =~= binding_pending(p@, o@, b@, raw_type@));
        }
    }
    t
}

// ---------------------------------------------------------------------------
// Fields.

/// Character-level view of a field source.
pub enum FieldSourceView {
    Input(Seq<char>),
    QueryResult(Seq<char>),
    Literal(LiteralView),
}

/// View of a lowered field source.
pub open spec fn field_source_view(s: PresentationAffordanceFieldSource) -> FieldSourceView {
    match s {
        PresentationAffordanceFieldSource::Input { name } => FieldSourceView::Input(name@),
        PresentationAffordanceFieldSource::QueryResult { name } => FieldSourceView::QueryResult(name@),
        PresentationAffordanceFieldSource::Literal(l) => FieldSourceView::Literal(crate::manifest::lower::bindings::literal_view(l)),
    }
}

/// `output '<o>' field '<f>'`.
pub open spec fn field_owner(o: Seq<char>, f: Seq<char>) -> Seq<char> {
    "output '"@ + o + "' field '"@ + f + "'"@
}

/// `projector '<p>' output '<o>' field '<f>'`.
pub open spec fn field_literal_owner(p: Seq<char>, o: Seq<char>, f: Seq<char>) -> Seq<char> {
    "projector '"@ + p + "' output '"@ + o + "' field '"@ + f + "'"@
}

/// The problems of a field's source, and the source it lowers to.
pub open spec fn field_source_outcome(
    schema: ProjectSchema,
    p: Seq<char>,
    o: Seq<char>,
    f: Seq<char>,
    t: TypeRefView,
    ins: Seq<(Seq<char>, TypeRefView)>,
    qs: Map<Seq<char>, TypeRefView>,
    raw: RawPresentationAffordanceFieldSource,
) -> (Seq<Problem>, FieldSourceView) {
    match raw {
        RawPresentationAffordanceFieldSource::Input { name } => (ref_problems(p, field_owner(o, f), t, ins, qs, RefView::Input(name@)),
            FieldSourceView::Input(name@)),
        RawPresentationAffordanceFieldSource::QueryResult { name } => (ref_problems(p, field_owner(o, f), t, ins, qs,
            RefView::QueryResult(name@)), FieldSourceView::QueryResult(name@)),
        RawPresentationAffordanceFieldSource::Literal { value } => (projection_literal_problems(schema, field_literal_owner(p, o, f), t, value),
            FieldSourceView::Literal(projection_literal(schema, field_literal_owner(p, o, f), t, value))),
    }
}

/// Field `i` is the first of its name.
pub open spec fn field_first(fs: Seq<Named<RawPresentationAffordanceFieldDefinition>>, i: int) -> bool {
    !entry_names(fs).take(i).contains(fs[i].name@)
}

/// The problems of field `i`.
pub open spec fn field_problems(
    schema: ProjectSchema,
    p: Seq<char>,
    o: Seq<char>,
    ins: Seq<(Seq<char>, TypeRefView)>,
    qs: Map<Seq<char>, TypeRefView>,
    fs: Seq<Named<RawPresentationAffordanceFieldDefinition>>,
    i: int,
) -> Seq<Problem> {
    let f = fs[i].name@;
    (if !spec_is_manifest_name(f) { seq![problem_of(invalid_name_view("projection output field name"@, arbitrary()))] } else { Seq::empty() })
        + if !field_first(fs, i) {
        seq![problem_with(
            "RECITE_SCHEMA003"@,
            "diagnostic-schema-003-projection-field"@,
            "projector '"@ + p + "' output '"@ + o + "' repeats field '"@ + f + "'"@,
            seq![("projector"@, ArgumentView::Text(p)), ("output"@, ArgumentView::Text(o)), ("field"@, ArgumentView::Text(f))],
        )]
    } else {
        binding_type_problems(p, o, f, fs[i].value.type_ref@) + field_source_outcome(schema, p, o, f,
            lowered_type(fs[i].value.type_ref@), ins, qs, fs[i].value.source).0
    }
}

/// The problems of the first `n` fields.
pub open spec fn fields_problems(
    schema: ProjectSchema,
    p: Seq<char>,
    o: Seq<char>,
    ins: Seq<(Seq<char>, TypeRefView)>,
    qs: Map<Seq<char>, TypeRefView>,
    fs: Seq<Named<RawPresentationAffordanceFieldDefinition>>,
    n: int,
) -> Seq<Problem>
    decreases n,
{
    if n <= 0 {
        Seq::empty()
    } else {
        fields_problems(schema, p, o, ins, qs, fs, n - 1) + field_problems(schema, p, o, ins, qs, fs, n - 1)
    }
}

/// The pending type references of the first `n` fields.
pub open spec fn fields_pending(p: Seq<char>, o: Seq<char>, fs: Seq<Named<RawPresentationAffordanceFieldDefinition>>, n: int) -> Seq<(Seq<char>, TypeRefView)>
    decreases n,
{
    if n <= 0 {
        Seq::empty()
    } else {
        fields_pending(p, o, fs, n - 1) + if field_first(fs, n - 1) {
            binding_pending(p, o, fs[n - 1].name@, fs[n - 1].value.type_ref@)
        } else {
            Seq::empty()
        }
    }
}

/// The lowered fields agree with the first field of each name.
pub open spec fn fields_lowered(
    r: StrMap<PresentationAffordanceFieldDefinition>,
    schema: ProjectSchema,
    p: Seq<char>,
    o: Seq<char>,
    ins: Seq<(Seq<char>, TypeRefView)>,
    qs: Map<Seq<char>, TypeRefView>,
    fs: Seq<Named<RawPresentationAffordanceFieldDefinition>>,
    n: int,
) -> bool {
    &&& forall|k: Seq<char>| #[trigger] r.has(k) <==> exists|i: int| 0 <= i < n && field_first(fs, i) && fs[i].name@ == k
    &&& forall|i: int| 0 <= i < n && #[trigger] field_first(fs, i) ==> (r.spec_get(fs[i].name@) matches Some(d)
        && d.type_ref@ == lowered_type(fs[i].value.type_ref@)
        && field_source_view(d.source) == field_source_outcome(schema, p, o, fs[i].name@, lowered_type(fs[i].value.type_ref@),
            ins, qs, fs[i].value.source).1)
}

fn lower_field_source(
    diagnostics: &mut Vec<Diagnostic>,
    schema: &ProjectSchema,
    p: &str,
    o: &str,
    f: &str,
    t: &SchemaTypeRef,
    inputs: &Vec<ProjectionInput>,
    query_types: &StrMap<SchemaTypeRef>,
    Ghost(qs): Ghost<Map<Seq<char>, TypeRefView>>,
    raw: RawPresentationAffordanceFieldSource,
    span: SourceSpan,
    literal_span: SourceSpan,
) -> (r: PresentationAffordanceFieldSource)
    requires
        types_lowered(*query_types, qs),
    ensures
        reported(old(diagnostics)@, final(diagnostics)@, field_source_outcome(*schema, p@, o@, f@, t@, input_type_views(inputs@), qs, raw).0),
        field_source_view(r) == field_source_outcome(*schema, p@, o@, f@, t@, input_type_views(inputs@), qs, raw).1,
{
    let mut owner = crate::text::concat3("output '", o, "' field '");
    crate::text::push_text(&mut owner, f);
    crate::text::push_text(&mut owner, "'");
    proof {
        assert(owner@ =~= field_owner(o@, f@));
    }
    match raw {
        RawPresentationAffordanceFieldSource::Input { name } => {
            let r = ProjectionInputRef::Input { name: crate::text::copy_string(&name) };
            validate_ref_type(diagnostics, p, owner.as_str(), t, inputs, query_types, Ghost(qs), &r, span);
            PresentationAffordanceFieldSource::Input { name }
        },
        RawPresentationAffordanceFieldSource::QueryResult { name } => {
            let r = ProjectionInputRef::QueryResult { name: crate::text::copy_string(&name) };
            validate_ref_type(diagnostics, p, owner.as_str(), t, inputs, query_types, Ghost(qs), &r, span);
            PresentationAffordanceFieldSource::QueryResult { name }
        },
        RawPresentationAffordanceFieldSource::Literal { value } => {
            let mut lowner = crate::text::concat3("projector '", p, "' output '");
            crate::text::push_text(&mut lowner, o);
            crate::text::push_text(&mut lowner, "' field '");
            crate::text::push_text(&mut lowner, f);
            crate::text::push_text(&mut lowner, "'");
            proof {
                assert(lowner@ =~= field_literal_owner(p@, o@, f@));
            }
            let literal = lower_literal_for_type(diagnostics, schema, lowner.as_str(), t, value, literal_span);
            PresentationAffordanceFieldSource::Literal(literal)
        },
    }
}

/// Lower an output's fields: the first field of each name is kept with its type and source.
#[verifier::rlimit(40)]
pub fn lower_fields(
    file: &str,
    source: &[char],
    spans: &mut ManifestSpans,
    diagnostics: &mut Vec<Diagnostic>,
    schema: &ProjectSchema,
    p: &str,
    o: &str,
    raw_fields: Vec<Named<RawPresentationAffordanceFieldDefinition>>,
    inputs: &Vec<ProjectionInput>,
    query_types: &StrMap<SchemaTypeRef>,
    Ghost(qs): Ghost<Map<Seq<char>, TypeRefView>>,
    pending_type_refs: &mut Vec<PendingTypeReference>,
) -> (r: StrMap<PresentationAffordanceFieldDefinition>)
    requires
        types_lowered(*query_types, qs),
    ensures
        reported(old(diagnostics)@, final(diagnostics)@, fields_problems(*schema, p@, o@, input_type_views(inputs@), qs, raw_fields@,
            raw_fields@.len() as int)),
        pending_added(old(pending_type_refs)@, final(pending_type_refs)@, fields_pending(p@, o@, raw_fields@, raw_fields@.len() as int)),
        fields_lowered(r, *schema, p@, o@, input_type_views(inputs@), qs, raw_fields@, raw_fields@.len() as int),
{
    let ghost fs = raw_fields@;
    let ghost names = entry_names(fs);
    let ghost iv = input_type_views(inputs@);
    let ghost start = diagnostics@;
    let ghost pstart = pending_type_refs@;
    let mut raw_fields = raw_fields;
    let mut seen = StrSet::new();
    let mut lowered: StrMap<PresentationAffordanceFieldDefinition> = StrMap::new();
    let mut i: usize = 0;
    let total = raw_fields.len();
    proof {
        lemma_reported_none(start);
        assert(pending_type_refs@.subrange(0, pstart.len() as int) =~= pstart);
        assert(pending_views(pending_type_refs@.subrange(pstart.len() as int, pstart.len() as int)) =~= Seq::<(Seq<char>, TypeRefView)>::empty());
        assert(fs.subrange(0, fs.len() as int) =~= fs);
    }
    while raw_fields.len() > 0
        invariant
            total == fs.len(),
            names == entry_names(fs),
            iv == input_type_views(inputs@),
            types_lowered(*query_types, qs),
            i <= fs.len(),
            raw_fields@ == fs.subrange(i as int, fs.len() as int),
            forall|n: Seq<char>| #[trigger] seen.elem_set().contains(n) <==> names.take(i as int).contains(n),
            reported(start, diagnostics@, fields_problems(*schema, p@, o@, iv, qs, fs, i as int)),
            pending_added(pstart, pending_type_refs@, fields_pending(p@, o@, fs, i as int)),
            fields_lowered(lowered, *schema, p@, o@, iv, qs, fs, i as int),
        decreases raw_fields@.len(),
    {
        let raw = raw_fields.remove(0);
        let ghost mid = diagnostics@;
        let ghost pmid = pending_type_refs@;
        let ghost before = lowered;
        proof {
            assert(raw == fs[i as int]);
            assert(raw_fields@ =~= fs.subrange(i + 1, fs.len() as int));
            assert(names[i as int] == raw.name@);
            assert(names.take(i + 1) =~= names.take(i as int).push(raw.name@));
        }
        let Named { name, value } = raw;
        let RawPresentationAffordanceFieldDefinition { source: raw_source, type_ref: raw_type } = value;
        let span = spans.next_string_span(file, source, name.as_str());
        let dup_span = span.copy();
        validate_manifest_name(diagnostics, "projection output field name", name.as_str(), span.copy());
        let ghost m1 = diagnostics@;
        let ghost p0 = if !spec_is_manifest_name(name@) { seq![problem_of(invalid_name_view("projection output field name"@, arbitrary()))] } else { Seq::<Problem>::empty() };
        proof {
            lemma_reported_none(mid);
            if !spec_is_manifest_name(name@) {
                lemma_reported_push(mid, mid, Seq::empty(), m1.last(), p0[0]);
                assert(m1 =~= mid.push(m1.last()));
                assert(Seq::<Problem>::empty().push(p0[0]) =~= p0);
            } else {
                assert(m1 =~= mid);
            }
        }
        let ghost seen_before = seen;
        proof {
            assert(seen_before.elem_set().contains(name@) == seen_before.elems().contains(name@));
        }
        let fresh = seen.insert(crate::text::copy_string(&name));
        proof {
            assert forall|n: Seq<char>| #[trigger] seen.elem_set().contains(n) <==> names.take(i + 1).contains(n) by {
                lemma_push_contains_seq_pub(names.take(i as int), name@, n);
            }
            assert(fresh == field_first(fs, i as int));
        }
        let ghost rest = field_problems(*schema, p@, o@, iv, qs, fs, i as int).subrange(p0.len() as int,
            field_problems(*schema, p@, o@, iv, qs, fs, i as int).len() as int);
        proof {
            assert(field_problems(*schema, p@, o@, iv, qs, fs, i as int) =~= p0 + rest);
        }
        if !fresh {
            let mut message = crate::text::concat3("projector '", p, "' output '");
            crate::text::push_text(&mut message, o);
            crate::text::push_text(&mut message, "' repeats field '");
            crate::text::push_text(&mut message, name.as_str());
            crate::text::push_text(&mut message, "'");
            let dargs = vec![text_arg("projector", p), text_arg("output", o), text_arg("field", name.as_str())];
            proof {
                assert(crate::diagnostics::arguments_view(dargs@) =~= seq![("projector"@, ArgumentView::Text(p@)),
                    ("output"@, ArgumentView::Text(o@)), ("field"@, ArgumentView::Text(name@))]);
            }
            report(diagnostics, crate::diagnostics::duplicate_definition_code(), "diagnostic-schema-003-projection-field", message, dup_span, dargs);
            proof {
                lemma_reported_trans(mid, m1, diagnostics@, p0, rest);
                lemma_reported_trans(start, mid, diagnostics@, fields_problems(*schema, p@, o@, iv, qs, fs, i as int),
                    field_problems(*schema, p@, o@, iv, qs, fs, i as int));
                assert(fields_pending(p@, o@, fs, i + 1) =~= fields_pending(p@, o@, fs, i as int));
                assert forall|k: Seq<char>| #[trigger] lowered.has(k) <==> exists|j: int| 0 <= j < i + 1 && field_first(fs, j) && fs[j].name@ == k by {
                    if exists|j: int| 0 <= j < i + 1 && field_first(fs, j) && fs[j].name@ == k {
                        let j = choose|j: int| 0 <= j < i + 1 && field_first(fs, j) && fs[j].name@ == k;
                        assert(j != i);
                    }
                }
            }
            i = i + 1;
            continue;
        }
        let t = lower_output_type_ref(file, source, spans, diagnostics, p, o, name.as_str(), raw_type.as_str(), pending_type_refs);
        let ghost m2 = diagnostics@;
        let literal_span = match &raw_source {
            RawPresentationAffordanceFieldSource::Literal { .. } => spans.next_string_span(file, source, "literal"),
            _ => span.copy(),
        };
        let ghost rsrc = raw_source;
        let lowered_source = lower_field_source(diagnostics, schema, p, o, name.as_str(), &t, inputs, query_types, Ghost(qs),
            raw_source, span, literal_span);
        proof {
            lemma_reported_trans(m1, m2, diagnostics@, binding_type_problems(p@, o@, name@, raw_type@),
                field_source_outcome(*schema, p@, o@, name@, lowered_type(raw_type@), iv, qs, rsrc).0);
            lemma_reported_trans(mid, m1, diagnostics@, p0, rest);
            lemma_reported_trans(start, mid, diagnostics@, fields_problems(*schema, p@, o@, iv, qs, fs, i as int),
                field_problems(*schema, p@, o@, iv, qs, fs, i as int));
            crate::manifest::lower::functions::lemma_pending_added_trans(pstart, pmid, pending_type_refs@, fields_pending(p@, o@, fs, i as int),
                binding_pending(p@, o@, name@, raw_type@));
        }
        lowered.insert(name, PresentationAffordanceFieldDefinition { source: lowered_source, type_ref: t });
        proof {
            assert forall|k: Seq<char>| #[trigger] lowered.has(k) <==> exists|j: int| 0 <= j < i + 1 && field_first(fs, j) && fs[j].name@ == k by {
                assert(lowered.keys().to_set().contains(k) == lowered.has(k));
                assert(before.keys().to_set().contains(k) == before.has(k));
                if k == fs[i as int].name@ {
                    assert(field_first(fs, i as int) && fs[i as int].name@ == k);
                }
                if exists|j: int| 0 <= j < i + 1 && field_first(fs, j) && fs[j].name@ == k {
                    let j = choose|j: int| 0 <= j < i + 1 && field_first(fs, j) && fs[j].name@ == k;
                    if j < i {
                        assert(exists|j2: int| 0 <= j2 < i && field_first(fs, j2) && fs[j2].name@ == k);
                    }
                }
            }
            assert forall|j: int| 0 <= j < i + 1 && #[trigger] field_first(fs, j) implies (lowered.spec_get(fs[j].name@) matches Some(d)
                && d.type_ref@ == lowered_type(fs[j].value.type_ref@)
                && field_source_view(d.source) == field_source_outcome(*schema, p@, o@, fs[j].name@, lowered_type(fs[j].value.type_ref@),
                    iv, qs, fs[j].value.source).1) by {
                if j < i {
                    if names[j] == names[i as int] {
                        assert(names.take(i as int)[j] == names[i as int]);
                    }
                    assert(names[j] == fs[j].name@);
                }
            }
        }
        i = i + 1;
    }
    lowered
}

// ---------------------------------------------------------------------------
// Labels.

/// Label argument `i` is the first of its name.
pub open spec fn label_arg_first(args: Seq<Named<RawPresentationLabelArgDefinition>>, i: int) -> bool {
    !entry_names(args).take(i).contains(args[i].name@)
}

/// `output '<o>' label argument '<a>'`.
pub open spec fn label_arg_owner(o: Seq<char>, a: Seq<char>) -> Seq<char> {
    "output '"@ + o + "' label argument '"@ + a + "'"@
}

/// The problems of label argument `i`.
pub open spec fn label_arg_problems(
    p: Seq<char>,
    o: Seq<char>,
    ins: Seq<(Seq<char>, TypeRefView)>,
    qs: Map<Seq<char>, TypeRefView>,
    args: Seq<Named<RawPresentationLabelArgDefinition>>,
    i: int,
) -> Seq<Problem> {
    let a = args[i].name@;
    (if !spec_is_manifest_name(a) { seq![problem_of(invalid_name_view("presentation label argument name"@, arbitrary()))] } else { Seq::empty() })
        + if !label_arg_first(args, i) {
        seq![problem_with(
            "RECITE_SCHEMA003"@,
            "diagnostic-schema-003-label-argument"@,
            "projector '"@ + p + "' output '"@ + o + "' repeats label argument '"@ + a + "'"@,
            seq![("projector"@, ArgumentView::Text(p)), ("output"@, ArgumentView::Text(o)), ("argument"@, ArgumentView::Text(a))],
        )]
    } else {
        binding_type_problems(p, o, a, args[i].value.type_ref@) + ref_problems(p, label_arg_owner(o, a),
            lowered_type(args[i].value.type_ref@), ins, qs, raw_ref_view(args[i].value.source))
    }
}

/// The problems of the first `n` label arguments.
pub open spec fn label_args_problems(
    p: Seq<char>,
    o: Seq<char>,
    ins: Seq<(Seq<char>, TypeRefView)>,
    qs: Map<Seq<char>, TypeRefView>,
    args: Seq<Named<RawPresentationLabelArgDefinition>>,
    n: int,
) -> Seq<Problem>
    decreases n,
{
    if n <= 0 {
        Seq::empty()
    } else {
        label_args_problems(p, o, ins, qs, args, n - 1) + label_arg_problems(p, o, ins, qs, args, n - 1)
    }
}

/// The pending type references of the first `n` label arguments.
pub open spec fn label_args_pending(p: Seq<char>, o: Seq<char>, args: Seq<Named<RawPresentationLabelArgDefinition>>, n: int) -> Seq<(Seq<char>, TypeRefView)>
    decreases n,
{
    if n <= 0 {
        Seq::empty()
    } else {
        label_args_pending(p, o, args, n - 1) + if label_arg_first(args, n - 1) {
            binding_pending(p, o, args[n - 1].name@, args[n - 1].value.type_ref@)
        } else {
            Seq::empty()
        }
    }
}

/// The names of the kept label arguments.
pub open spec fn label_arg_names(args: Seq<Named<RawPresentationLabelArgDefinition>>) -> Set<Seq<char>> {
    Set::new(|k: Seq<char>| exists|i: int| 0 <= i < args.len() && label_arg_first(args, i) && args[i].name@ == k)
}

/// The lowered label arguments agree with the first argument of each name.
pub open spec fn label_args_lowered(r: StrMap<PresentationLabelArgDefinition>, args: Seq<Named<RawPresentationLabelArgDefinition>>, n: int) -> bool {
    &&& forall|k: Seq<char>| #[trigger] r.has(k) <==> exists|i: int| 0 <= i < n && label_arg_first(args, i) && args[i].name@ == k
    &&& forall|i: int| 0 <= i < n && #[trigger] label_arg_first(args, i) ==> (r.spec_get(args[i].name@) matches Some(d)
        && d.type_ref@ == lowered_type(args[i].value.type_ref@) && ref_view(d.source) == raw_ref_view(args[i].value.source))
}

/// Lower a label's arguments: the first argument of each name is kept with
/// its type and source, whose type is checked.
pub fn lower_label_args(
    file: &str,
    source: &[char],
    spans: &mut ManifestSpans,
    diagnostics: &mut Vec<Diagnostic>,
    p: &str,
    o: &str,
    raw_args: Vec<Named<RawPresentationLabelArgDefinition>>,
    inputs: &Vec<ProjectionInput>,
    query_types: &StrMap<SchemaTypeRef>,
    Ghost(qs): Ghost<Map<Seq<char>, TypeRefView>>,
    pending_type_refs: &mut Vec<PendingTypeReference>,
) -> (r: StrMap<PresentationLabelArgDefinition>)
    requires
        types_lowered(*query_types, qs),
    ensures
        reported(old(diagnostics)@, final(diagnostics)@, label_args_problems(p@, o@, input_type_views(inputs@), qs, raw_args@,
            raw_args@.len() as int)),
        pending_added(old(pending_type_refs)@, final(pending_type_refs)@, label_args_pending(p@, o@, raw_args@, raw_args@.len() as int)),
        label_args_lowered(r, raw_args@, raw_args@.len() as int),
{
    let ghost fs = raw_args@;
    let ghost names = entry_names(fs);
    let ghost iv = input_type_views(inputs@);
    let ghost start = diagnostics@;
    let ghost pstart = pending_type_refs@;
    let mut raw_args = raw_args;
    let mut seen = StrSet::new();
    let mut lowered: StrMap<PresentationLabelArgDefinition> = StrMap::new();
    let mut i: usize = 0;
    let total = raw_args.len();
    proof {
        lemma_reported_none(start);
        assert(pending_type_refs@.subrange(0, pstart.len() as int) =~= pstart);
        assert(pending_views(pending_type_refs@.subrange(pstart.len() as int, pstart.len() as int)) =~= Seq::<(Seq<char>, TypeRefView)>::empty());
        assert(fs.subrange(0, fs.len() as int) =~= fs);
    }
    while raw_args.len() > 0
        invariant
            total == fs.len(),
            names == entry_names(fs),
            iv == input_type_views(inputs@),
            types_lowered(*query_types, qs),
            i <= fs.len(),
            raw_args@ == fs.subrange(i as int, fs.len() as int),
            forall|n: Seq<char>| #[trigger] seen.elem_set().contains(n) <==> names.take(i as int).contains(n),
            reported(start, diagnostics@, label_args_problems(p@, o@, iv, qs, fs, i as int)),
            pending_added(pstart, pending_type_refs@, label_args_pending(p@, o@, fs, i as int)),
            label_args_lowered(lowered, fs, i as int),
        decreases raw_args@.len(),
    {
        let raw = raw_args.remove(0);
        let ghost mid = diagnostics@;
        let ghost pmid = pending_type_refs@;
        let ghost before = lowered;
        proof {
            assert(raw == fs[i as int]);
            assert(raw_args@ =~= fs.subrange(i + 1, fs.len() as int));
            assert(names[i as int] == raw.name@);
            assert(names.take(i + 1) =~= names.take(i as int).push(raw.name@));
        }
        let Named { name, value } = raw;
        let RawPresentationLabelArgDefinition { source: raw_source, type_ref: raw_type } = value;
        let span = spans.next_string_span(file, source, name.as_str());
        let dup_span = span.copy();
        validate_manifest_name(diagnostics, "presentation label argument name", name.as_str(), span.copy());
        let ghost m1 = diagnostics@;
        let ghost p0 = if !spec_is_manifest_name(name@) { seq![problem_of(invalid_name_view("presentation label argument name"@, arbitrary()))] } else { Seq::<Problem>::empty() };
        proof {
            lemma_reported_none(mid);
            if !spec_is_manifest_name(name@) {
                lemma_reported_push(mid, mid, Seq::empty(), m1.last(), p0[0]);
                assert(m1 =~= mid.push(m1.last()));
                assert(Seq::<Problem>::empty().push(p0[0]) =~= p0);
            } else {
                assert(m1 =~= mid);
            }
        }
        let ghost seen_before = seen;
        proof {
            assert(seen_before.elem_set().contains(name@) == seen_before.elems().contains(name@));
        }
        let fresh = seen.insert(crate::text::copy_string(&name));
        proof {
            assert forall|n: Seq<char>| #[trigger] seen.elem_set().contains(n) <==> names.take(i + 1).contains(n) by {
                lemma_push_contains_seq_pub(names.take(i as int), name@, n);
            }
            assert(fresh == label_arg_first(fs, i as int));
        }
        let ghost rest = label_arg_problems(p@, o@, iv, qs, fs, i as int).subrange(p0.len() as int,
            label_arg_problems(p@, o@, iv, qs, fs, i as int).len() as int);
        proof {
            assert(label_arg_problems(p@, o@, iv, qs, fs, i as int) =~= p0 + rest);
        }
        if !fresh {
            let mut message = crate::text::concat3("projector '", p, "' output '");
            crate::text::push_text(&mut message, o);
            crate::text::push_text(&mut message, "' repeats label argument '");
            crate::text::push_text(&mut message, name.as_str());
            crate::text::push_text(&mut message, "'");
            let dargs = vec![text_arg("projector", p), text_arg("output", o), text_arg("argument", name.as_str())];
            proof {
                assert(crate::diagnostics::arguments_view(dargs@) =~= seq![("projector"@, ArgumentView::Text(p@)),
                    ("output"@, ArgumentView::Text(o@)), ("argument"@, ArgumentView::Text(name@))]);
            }
            report(diagnostics, crate::diagnostics::duplicate_definition_code(), "diagnostic-schema-003-label-argument", message, dup_span, dargs);
            proof {
                lemma_reported_trans(mid, m1, diagnostics@, p0, rest);
                lemma_reported_trans(start, mid, diagnostics@, label_args_problems(p@, o@, iv, qs, fs, i as int),
                    label_arg_problems(p@, o@, iv, qs, fs, i as int));
                assert(label_args_pending(p@, o@, fs, i + 1) =~= label_args_pending(p@, o@, fs, i as int));
                assert forall|k: Seq<char>| #[trigger] lowered.has(k) <==> exists|j: int| 0 <= j < i + 1 && label_arg_first(fs, j) && fs[j].name@ == k by {
                    if exists|j: int| 0 <= j < i + 1 && label_arg_first(fs, j) && fs[j].name@ == k {
                        let j = choose|j: int| 0 <= j < i + 1 && label_arg_first(fs, j) && fs[j].name@ == k;
                        assert(j != i);
                    }
                }
            }
            i = i + 1;
            continue;
        }
        let t = lower_output_type_ref(file, source, spans, diagnostics, p, o, name.as_str(), raw_type.as_str(), pending_type_refs);
        let ghost m2 = diagnostics@;
        let source_ref = lower_input_ref(raw_source);
        let mut owner = crate::text::concat3("output '", o, "' label argument '");
        crate::text::push_text(&mut owner, name.as_str());
        crate::text::push_text(&mut owner, "'");
        proof {
            assert(owner@ =~= label_arg_owner(o@, name@));
        }
        validate_ref_type(diagnostics, p, owner.as_str(), &t, inputs, query_types, Ghost(qs), &source_ref, span);
        proof {
            lemma_reported_trans(m1, m2, diagnostics@, binding_type_problems(p@, o@, name@, raw_type@),
                ref_problems(p@, label_arg_owner(o@, name@), lowered_type(raw_type@), iv, qs, ref_view(source_ref)));
            lemma_reported_trans(mid, m1, diagnostics@, p0, rest);
            lemma_reported_trans(start, mid, diagnostics@, label_args_problems(p@, o@, iv, qs, fs, i as int),
                label_arg_problems(p@, o@, iv, qs, fs, i as int));
            crate::manifest::lower::functions::lemma_pending_added_trans(pstart, pmid, pending_type_refs@, label_args_pending(p@, o@, fs, i as int),
                binding_pending(p@, o@, name@, raw_type@));
        }
        lowered.insert(name, PresentationLabelArgDefinition { source: source_ref, type_ref: t });
        proof {
            assert forall|k: Seq<char>| #[trigger] lowered.has(k) <==> exists|j: int| 0 <= j < i + 1 && label_arg_first(fs, j) && fs[j].name@ == k by {
                assert(lowered.keys().to_set().contains(k) == lowered.has(k));
                assert(before.keys().to_set().contains(k) == before.has(k));
                if k == fs[i as int].name@ {
                    assert(label_arg_first(fs, i as int) && fs[i as int].name@ == k);
                }
                if exists|j: int| 0 <= j < i + 1 && label_arg_first(fs, j) && fs[j].name@ == k {
                    let j = choose|j: int| 0 <= j < i + 1 && label_arg_first(fs, j) && fs[j].name@ == k;
                    if j < i {
                        assert(exists|j2: int| 0 <= j2 < i && label_arg_first(fs, j2) && fs[j2].name@ == k);
                    }
                }
            }
            assert forall|j: int| 0 <= j < i + 1 && #[trigger] label_arg_first(fs, j) implies (lowered.spec_get(fs[j].name@) matches Some(d)
                && d.type_ref@ == lowered_type(fs[j].value.type_ref@) && ref_view(d.source) == raw_ref_view(fs[j].value.source)) by {
                if j < i {
                    if names[j] == names[i as int] {
                        assert(names.take(i as int)[j] == names[i as int]);
                    }
                    assert(names[j] == fs[j].name@);
                }
            }
        }
        i = i + 1;
    }
    lowered
}

/// A problem about a label, with projector, output and template id among its arguments.
pub open spec fn label_problem(id: Seq<char>, p: Seq<char>, o: Seq<char>, tid: Seq<char>, tail: Seq<char>, lead: Seq<(Seq<char>, ArgumentView)>, extra: Seq<(Seq<char>, ArgumentView)>) -> Problem {
    shape_problem(
        id,
        "projector '"@ + p + "' output '"@ + o + "' presentation label '"@ + tid + "'"@ + tail,
        lead + seq![("projector"@, ArgumentView::Text(p)), ("output"@, ArgumentView::Text(o)), ("template_id"@, ArgumentView::Text(tid))] + extra,
    )
}

/// The problems of a label's placeholders against its argument names.
pub open spec fn label_placeholder_problems(p: Seq<char>, o: Seq<char>, tid: Seq<char>, text: Seq<char>, keys: Seq<Seq<char>>) -> Seq<Problem> {
    match placeholders_from(text, 0) {
        Err(e) => seq![label_problem(
            match e {
                PlaceholderErrorView::Unterminated => "diagnostic-schema-001-label-placeholder-unterminated"@,
                PlaceholderErrorView::InvalidName(_) => "diagnostic-schema-001-label-placeholder-invalid-name"@,
                PlaceholderErrorView::UnescapedClosingBrace => "diagnostic-schema-001-label-placeholder-unescaped-closing-brace"@,
            },
            p, o, tid,
            " has invalid placeholder syntax: "@ + placeholder_error_text(e),
            match e {
                PlaceholderErrorView::InvalidName(n) => seq![("name"@, ArgumentView::Text(n))],
                _ => Seq::empty(),
            },
            Seq::empty(),
        )],
        Ok(ph) => unknown_label_args(p, o, tid, ph, keys, ph.len() as int) + unused_label_args(p, o, tid, ph, keys, keys.len() as int),
    }
}

/// The problems of the first `n` placeholders that name no argument.
pub open spec fn unknown_label_args(p: Seq<char>, o: Seq<char>, tid: Seq<char>, ph: Seq<Seq<char>>, keys: Seq<Seq<char>>, n: int) -> Seq<Problem>
    decreases n,
{
    if n <= 0 {
        Seq::empty()
    } else {
        unknown_label_args(p, o, tid, ph, keys, n - 1) + if keys.contains(ph[n - 1]) {
            Seq::empty()
        } else {
            seq![label_problem("diagnostic-schema-001-label-unknown-arg"@, p, o, tid,
                " references unknown argument '"@ + ph[n - 1] + "'"@, Seq::empty(), seq![("placeholder"@, ArgumentView::Text(ph[n - 1]))])]
        }
    }
}

/// The problems of the first `n` arguments that no placeholder names.
pub open spec fn unused_label_args(p: Seq<char>, o: Seq<char>, tid: Seq<char>, ph: Seq<Seq<char>>, keys: Seq<Seq<char>>, n: int) -> Seq<Problem>
    decreases n,
{
    if n <= 0 {
        Seq::empty()
    } else {
        unused_label_args(p, o, tid, ph, keys, n - 1) + if ph.contains(keys[n - 1]) {
            Seq::empty()
        } else {
            seq![label_problem("diagnostic-schema-001-label-unused-arg"@, p, o, tid,
                " argument '"@ + keys[n - 1] + "' is not used in its template"@, Seq::empty(), seq![("arg"@, ArgumentView::Text(keys[n - 1]))])]
        }
    }
}

fn report_label(
    diagnostics: &mut Vec<Diagnostic>,
    id: &str,
    p: &str,
    o: &str,
    tid: &str,
    tail: &str,
    lead: Vec<(String, crate::diagnostics::DiagnosticArgumentValue)>,
    extra: Vec<(String, crate::diagnostics::DiagnosticArgumentValue)>,
    span: SourceSpan,
)
    ensures
        reported(old(diagnostics)@, final(diagnostics)@, seq![label_problem(id@, p@, o@, tid@, tail@,
            crate::diagnostics::arguments_view(lead@), crate::diagnostics::arguments_view(extra@))]),
{
    let mut message = crate::text::concat3("projector '", p, "' output '");
    crate::text::push_text(&mut message, o);
    crate::text::push_text(&mut message, "' presentation label '");
    crate::text::push_text(&mut message, tid);
    crate::text::push_text(&mut message, "'");
    crate::text::push_text(&mut message, tail);
    let ghost l = lead@;
    let ghost x = extra@;
    let mut args = lead;
    let mut middle = vec![text_arg("projector", p), text_arg("output", o), text_arg("template_id", tid)];
    let ghost mv = middle@;
    args.append(&mut middle);
    let mut extra = extra;
    args.append(&mut extra);
    proof {
        assert(args@ =~= l + mv + x);
        assert(crate::diagnostics::arguments_view(mv) =~= seq![("projector"@, ArgumentView::Text(p@)), ("output"@, ArgumentView::Text(o@)),
            ("template_id"@, ArgumentView::Text(tid@))]);
        assert(crate::diagnostics::arguments_view(args@) =~= crate::diagnostics::arguments_view(l) + crate::diagnostics::arguments_view(mv)
            + crate::diagnostics::arguments_view(x));
        assert(message@ =~= "projector '"@ + p@ + "' output '"@ + o@ + "' presentation label '"@ + tid@ + "'"@ + tail@);
    }
    report(diagnostics, crate::diagnostics::malformed_shape(), id, message, span, args);
}

fn string_list_contains(names: &Vec<String>, name: &str) -> (r: bool)
    ensures
        r == names@.map_values(|x: String| x@).contains(name@),
{
    let ghost v = names@.map_values(|x: String| x@);
    let mut i: usize = 0;
    while i < names.len()
        invariant
            v == names@.map_values(|x: String| x@),
            i <= names@.len(),
            forall|j: int| 0 <= j < i ==> v[j] != name@,
        decreases names@.len() - i,
    {
        if crate::text::str_eq(names[i].as_str(), name) {
            proof {
                assert(v[i as int] == name@);
            }
            return true;
        }
        i = i + 1;
    }
    proof {
        if v.contains(name@) {
            let k = choose|k: int| 0 <= k < v.len() && v[k] == name@;
            assert(v[k] != name@);
        }
    }
    false
}

/// Check a label's placeholders against its arguments.
pub fn validate_label_placeholders<V>(
    diagnostics: &mut Vec<Diagnostic>,
    p: &str,
    o: &str,
    tid: &str,
    text: &str,
    args: &StrMap<V>,
    span: &SourceSpan,
)
    ensures
        reported(old(diagnostics)@, final(diagnostics)@, label_placeholder_problems(p@, o@, tid@, text@, args.keys())),
{
    let ghost start = diagnostics@;
    let ghost keys = args.keys();
    let placeholders = match extract_placeholder_names(text) {
        Ok(ph) => ph,
        Err(error) => {
            let (id, lead) = match &error {
                PlaceholderSyntaxKind::Unterminated => ("diagnostic-schema-001-label-placeholder-unterminated", Vec::new()),
                PlaceholderSyntaxKind::InvalidName(n) => ("diagnostic-schema-001-label-placeholder-invalid-name", vec![text_arg("name", n.as_str())]),
                PlaceholderSyntaxKind::UnescapedClosingBrace => ("diagnostic-schema-001-label-placeholder-unescaped-closing-brace", Vec::new()),
            };
            let detail = error.message();
            let tail = crate::text::concat2(" has invalid placeholder syntax: ", detail.as_str());
            proof {
                let ev = error.view_of();
                assert(crate::diagnostics::arguments_view(lead@) =~= match ev {
                    PlaceholderErrorView::InvalidName(n) => seq![("name"@, ArgumentView::Text(n))],
                    _ => Seq::<(Seq<char>, ArgumentView)>::empty(),
                });
                assert(crate::diagnostics::arguments_view(Seq::<(String, crate::diagnostics::DiagnosticArgumentValue)>::empty()) =~= Seq::empty());
            }
            report_label(diagnostics, id, p, o, tid, tail.as_str(), lead, Vec::new(), span.copy());
            return;
        },
    };
    let ghost ph = placeholders@.map_values(|x: String| x@);
    proof {
        lemma_reported_none(start);
    }
    let mut i: usize = 0;
    while i < placeholders.len()
        invariant
            i <= ph.len(),
            ph == placeholders@.map_values(|x: String| x@),
            keys == args.keys(),
            reported(start, diagnostics@, unknown_label_args(p@, o@, tid@, ph, keys, i as int)),
        decreases ph.len() - i,
    {
        let placeholder = &placeholders[i];
        let ghost mid = diagnostics@;
        proof {
            assert(ph[i as int] == placeholder@);
        }
        if !args.contains_key(placeholder.as_str()) {
            let tail = crate::text::concat3(" references unknown argument '", placeholder.as_str(), "'");
            let extra = vec![text_arg("placeholder", placeholder.as_str())];
            proof {
                assert(crate::diagnostics::arguments_view(extra@) =~= seq![("placeholder"@, ArgumentView::Text(placeholder@))]);
                assert(crate::diagnostics::arguments_view(Seq::<(String, crate::diagnostics::DiagnosticArgumentValue)>::empty()) =~= Seq::empty());
            }
            report_label(diagnostics, "diagnostic-schema-001-label-unknown-arg", p, o, tid, tail.as_str(), Vec::new(), extra, span.copy());
            proof {
                lemma_reported_trans(start, mid, diagnostics@, unknown_label_args(p@, o@, tid@, ph, keys, i as int),
                    seq![label_problem("diagnostic-schema-001-label-unknown-arg"@, p@, o@, tid@,
                        " references unknown argument '"@ + ph[i as int] + "'"@, Seq::empty(), seq![("placeholder"@, ArgumentView::Text(ph[i as int]))])]);
            }
        } else {
            proof {
                assert(unknown_label_args(p@, o@, tid@, ph, keys, i + 1) =~= unknown_label_args(p@, o@, tid@, ph, keys, i as int));
            }
        }
        i = i + 1;
    }
    let ghost m1 = diagnostics@;
    proof {
        lemma_reported_none(m1);
    }
    let mut j: usize = 0;
    while j < args.len()
        invariant
            j <= keys.len(),
            keys == args.keys(),
            ph == placeholders@.map_values(|x: String| x@),
            reported(m1, diagnostics@, unused_label_args(p@, o@, tid@, ph, keys, j as int)),
        decreases keys.len() - j,
    {
        let key = &args.entry_at(j).0;
        let ghost mid = diagnostics@;
        proof {
            assert(keys[j as int] == key@);
        }
        if !string_list_contains(&placeholders, key.as_str()) {
            let tail = crate::text::concat3(" argument '", key.as_str(), "' is not used in its template");
            let extra = vec![text_arg("arg", key.as_str())];
            proof {
                assert(crate::diagnostics::arguments_view(extra@) =~= seq![("arg"@, ArgumentView::Text(key@))]);
                assert(crate::diagnostics::arguments_view(Seq::<(String, crate::diagnostics::DiagnosticArgumentValue)>::empty()) =~= Seq::empty());
            }
            report_label(diagnostics, "diagnostic-schema-001-label-unused-arg", p, o, tid, tail.as_str(), Vec::new(), extra, span.copy());
            proof {
                lemma_reported_trans(m1, mid, diagnostics@, unused_label_args(p@, o@, tid@, ph, keys, j as int),
                    seq![label_problem("diagnostic-schema-001-label-unused-arg"@, p@, o@, tid@,
                        " argument '"@ + keys[j as int] + "' is not used in its template"@, Seq::empty(), seq![("arg"@, ArgumentView::Text(keys[j as int]))])]);
            }
        } else {
            proof {
                assert(unused_label_args(p@, o@, tid@, ph, keys, j + 1) =~= unused_label_args(p@, o@, tid@, ph, keys, j as int));
            }
        }
        j = j + 1;
    }
    proof {
        lemma_reported_trans(start, m1, diagnostics@, unknown_label_args(p@, o@, tid@, ph, keys, ph.len() as int),
            unused_label_args(p@, o@, tid@, ph, keys, keys.len() as int));
    }
}

/// The problems of a label.
pub open spec fn label_problems(
    p: Seq<char>,
    o: Seq<char>,
    ins: Seq<(Seq<char>, TypeRefView)>,
    qs: Map<Seq<char>, TypeRefView>,
    ids: Set<Seq<char>>,
    raw: RawPresentationLabelDefinition,
) -> Seq<Problem> {
    let tid = raw.template_id@;
    let args = raw.args@;
    (if !spec_is_manifest_name(tid) { seq![problem_of(invalid_name_view("presentation label template id"@, arbitrary()))] } else { Seq::empty() })
        + (if ids.contains(tid) {
            seq![problem_with(
                "RECITE_SCHEMA003"@,
                "diagnostic-schema-003-label-template"@,
                "duplicate presentation label template id '"@ + tid + "'"@,
                seq![("template_id"@, ArgumentView::Text(tid))],
            )]
        } else {
            Seq::empty()
        }) + empty_field_problems("presentation label source text"@, raw.source_text@)
        + label_args_problems(p, o, ins, qs, args, args.len() as int)
        + label_placeholder_problems(p, o, tid, raw.source_text@, sorted_texts_of(label_arg_names(args)))
}

/// The label a raw label lowers to.
pub open spec fn label_lowered(d: PresentationLabelDefinition, raw: RawPresentationLabelDefinition) -> bool {
    &&& d.template_id@ == raw.template_id@
    &&& d.source_text@ == raw.source_text@
    &&& label_args_lowered(d.args, raw.args@, raw.args@.len() as int)
}

/// Lower an output's label: its template id must be new among all labels,
/// its arguments are typed references, and its placeholders name exactly its arguments.
pub fn lower_label(
    file: &str,
    source: &[char],
    spans: &mut ManifestSpans,
    diagnostics: &mut Vec<Diagnostic>,
    p: &str,
    o: &str,
    raw: RawPresentationLabelDefinition,
    inputs: &Vec<ProjectionInput>,
    query_types: &StrMap<SchemaTypeRef>,
    Ghost(qs): Ghost<Map<Seq<char>, TypeRefView>>,
    seen_label_ids: &mut StrSet,
    pending_type_refs: &mut Vec<PendingTypeReference>,
) -> (r: PresentationLabelDefinition)
    requires
        types_lowered(*query_types, qs),
    ensures
        reported(old(diagnostics)@, final(diagnostics)@, label_problems(p@, o@, input_type_views(inputs@), qs, old(seen_label_ids).elem_set(), raw)),
        pending_added(old(pending_type_refs)@, final(pending_type_refs)@, label_args_pending(p@, o@, raw.args@, raw.args@.len() as int)),
        final(seen_label_ids).elem_set() == old(seen_label_ids).elem_set().insert(raw.template_id@),
        label_lowered(r, raw),
{
    let ghost r0 = raw;
    let ghost start = diagnostics@;
    let ghost ids = seen_label_ids.elem_set();
    let RawPresentationLabelDefinition { template_id, source_text, args } = raw;
    let tid_span = spans.next_string_span(file, source, template_id.as_str());
    validate_manifest_name(diagnostics, "presentation label template id", template_id.as_str(), tid_span.copy());
    let ghost m1 = diagnostics@;
    let ghost p0 = if !spec_is_manifest_name(template_id@) { seq![problem_of(invalid_name_view("presentation label template id"@, arbitrary()))] } else { Seq::<Problem>::empty() };
    proof {
        lemma_reported_none(start);
        if !spec_is_manifest_name(template_id@) {
            lemma_reported_push(start, start, Seq::empty(), m1.last(), p0[0]);
            assert(m1 =~= start.push(m1.last()));
            assert(Seq::<Problem>::empty().push(p0[0]) =~= p0);
        } else {
            assert(m1 =~= start);
        }
        assert(ids.contains(template_id@) == seen_label_ids.elems().contains(template_id@));
    }
    let fresh = seen_label_ids.insert(crate::text::copy_string(&template_id));
    let ghost p1 = if !fresh {
        seq![problem_with(
            "RECITE_SCHEMA003"@,
            "diagnostic-schema-003-label-template"@,
            "duplicate presentation label template id '"@ + template_id@ + "'"@,
            seq![("template_id"@, ArgumentView::Text(template_id@))],
        )]
    } else {
        Seq::<Problem>::empty()
    };
    if !fresh {
        let message = crate::text::concat3("duplicate presentation label template id '", template_id.as_str(), "'");
        let dargs = vec![text_arg("template_id", template_id.as_str())];
        proof {
            assert(crate::diagnostics::arguments_view(dargs@) =~= seq![("template_id"@, ArgumentView::Text(template_id@))]);
        }
        let dup_span = spans.next_string_span(file, source, template_id.as_str());
        report(diagnostics, crate::diagnostics::duplicate_definition_code(), "diagnostic-schema-003-label-template", message, dup_span, dargs);
    } else {
        proof {
            lemma_reported_none(m1);
        }
    }
    let ghost m2 = diagnostics@;
    let text_span = spans.next_string_span(file, source, source_text.as_str());
    validate_non_empty_string(diagnostics, "presentation label source text", source_text.as_str(), text_span.copy());
    let ghost m3 = diagnostics@;
    let ghost p2 = empty_field_problems("presentation label source text"@, source_text@);
    proof {
        lemma_reported_none(m2);
        if source_text@.len() == 0 {
            lemma_reported_push(m2, m2, Seq::empty(), m3.last(), p2[0]);
            assert(m3 =~= m2.push(m3.last()));
            assert(Seq::<Problem>::empty().push(p2[0]) =~= p2);
        } else {
            assert(m3 =~= m2);
        }
    }
    let ghost raw_args = args@;
    let lowered_args = lower_label_args(file, source, spans, diagnostics, p, o, args, inputs, query_types, Ghost(qs), pending_type_refs);
    let ghost m4 = diagnostics@;
    lowered_args.proof_sorted();
    proof {
        assert(lowered_args.keys().to_set() =~= label_arg_names(raw_args)) by {
            assert forall|k: Seq<char>| lowered_args.keys().to_set().contains(k) <==> label_arg_names(raw_args).contains(k) by {
                assert(lowered_args.keys().to_set().contains(k) == lowered_args.has(k));
            }
        }
        crate::order::lemma_sorted_texts_of(lowered_args.keys());
    }
    validate_label_placeholders(diagnostics, p, o, template_id.as_str(), source_text.as_str(), &lowered_args, &text_span);
    proof {
        let iv = input_type_views(inputs@);
        let p3 = label_args_problems(p@, o@, iv, qs, raw_args, raw_args.len() as int);
        let p4 = label_placeholder_problems(p@, o@, template_id@, source_text@, sorted_texts_of(label_arg_names(raw_args)));
        lemma_reported_trans(start, m1, m2, p0, p1);
        lemma_reported_trans(start, m2, m3, p0 + p1, p2);
        lemma_reported_trans(start, m3, m4, p0 + p1 + p2, p3);
        lemma_reported_trans(start, m4, diagnostics@, p0 + p1 + p2 + p3, p4);
    }
    PresentationLabelDefinition { template_id, source_text, args: lowered_args }
}

// ---------------------------------------------------------------------------
// Outputs.

/// The target a raw target names; an unknown one is `Candidate`.
pub open spec fn output_target_of(s: Seq<char>) -> ProjectionOutputTarget {
    if s == "event"@ {
        ProjectionOutputTarget::Event
    } else if s == "prompt"@ {
        ProjectionOutputTarget::Prompt
    } else {
        ProjectionOutputTarget::Candidate
    }
}

/// The output target names read as the targets they name.
pub proof fn lemma_output_target_names()
    ensures
        output_target_of("event"@) == ProjectionOutputTarget::Event,
        output_target_of("prompt"@) == ProjectionOutputTarget::Prompt,
        output_target_of("candidate"@) == ProjectionOutputTarget::Candidate,
{
    reveal_strlit("event");
    reveal_strlit("prompt");
    reveal_strlit("candidate");
    assert("prompt"@[0] != "event"@[0]);
    assert("candidate"@[0] != "event"@[0] && "candidate"@[0] != "prompt"@[0]);
}

/// The problems of a raw output target.
pub open spec fn output_target_problems(p: Seq<char>, o: Seq<char>, s: Seq<char>) -> Seq<Problem> {
    if s == "candidate"@ || s == "event"@ || s == "prompt"@ {
        Seq::empty()
    } else {
        seq![shape_problem(
            "diagnostic-schema-001-projection-output-target"@,
            "projector '"@ + p + "' output '"@ + o + "' uses unsupported target '"@ + s + "'"@,
            seq![("projector"@, ArgumentView::Text(p)), ("output"@, ArgumentView::Text(o)), ("target"@, ArgumentView::Text(s))],
        )]
    }
}

fn lower_output_target(diagnostics: &mut Vec<Diagnostic>, p: &str, o: &str, raw: &str, span: SourceSpan) -> (r: ProjectionOutputTarget)
    ensures
        r == output_target_of(raw@),
        reported(old(diagnostics)@, final(diagnostics)@, output_target_problems(p@, o@, raw@)),
{
    proof {
        reveal_strlit("candidate");
        reveal_strlit("event");
        reveal_strlit("prompt");
        assert("candidate"@[0] != "event"@[0]);
        assert("candidate"@[0] != "prompt"@[0]);
        assert("event"@[0] != "prompt"@[0]);
        lemma_reported_none(diagnostics@);
    }
    if crate::text::str_eq(raw, "candidate") {
        ProjectionOutputTarget::Candidate
    } else if crate::text::str_eq(raw, "event") {
        ProjectionOutputTarget::Event
    } else if crate::text::str_eq(raw, "prompt") {
        ProjectionOutputTarget::Prompt
    } else {
        let mut message = crate::text::concat3("projector '", p, "' output '");
        crate::text::push_text(&mut message, o);
        crate::text::push_text(&mut message, "' uses unsupported target '");
        crate::text::push_text(&mut message, raw);
        crate::text::push_text(&mut message, "'");
        let args = vec![text_arg("projector", p), text_arg("output", o), text_arg("target", raw)];
        proof {
            assert(crate::diagnostics::arguments_view(args@) =~= seq![("projector"@, ArgumentView::Text(p@)),
                ("output"@, ArgumentView::Text(o@)), ("target"@, ArgumentView::Text(raw@))]);
        }
        report(diagnostics, crate::diagnostics::malformed_shape(), "diagnostic-schema-001-projection-output-target", message, span, args);
        ProjectionOutputTarget::Candidate
    }
}

/// Output `i` is the first of its name.
pub open spec fn output_first(os: Seq<Named<RawPresentationAffordanceOutputDefinition>>, i: int) -> bool {
    !entry_names(os).take(i).contains(os[i].name@)
}

/// The label template ids seen after the first `n` outputs.
pub open spec fn label_ids_after(ids: Set<Seq<char>>, os: Seq<Named<RawPresentationAffordanceOutputDefinition>>, n: int) -> Set<Seq<char>>
    decreases n,
{
    if n <= 0 {
        ids
    } else {
        let s = label_ids_after(ids, os, n - 1);
        if output_first(os, n - 1) && os[n - 1].value.label is Some {
            s.insert(os[n - 1].value.label->0.template_id@)
        } else {
            s
        }
    }
}

/// The problems of output `i`, given the label ids seen before it.
pub open spec fn output_problems(
    schema: ProjectSchema,
    p: Seq<char>,
    ins: Seq<(Seq<char>, TypeRefView)>,
    qs: Map<Seq<char>, TypeRefView>,
    ids: Set<Seq<char>>,
    os: Seq<Named<RawPresentationAffordanceOutputDefinition>>,
    i: int,
) -> Seq<Problem> {
    let o = os[i].name@;
    let r = os[i].value;
    (if !spec_is_manifest_name(o) { seq![problem_of(invalid_name_view("projection output id"@, arbitrary()))] } else { Seq::empty() })
        + if !output_first(os, i) {
        seq![problem_with(
            "RECITE_SCHEMA003"@,
            "diagnostic-schema-003-projection-output"@,
            "projector '"@ + p + "' repeats output '"@ + o + "'"@,
            seq![("projector"@, ArgumentView::Text(p)), ("output"@, ArgumentView::Text(o))],
        )]
    } else {
        output_target_problems(p, o, r.target@) + empty_field_problems("projection output kind"@, r.kind@)
            + empty_field_problems("projection output slot"@, r.slot@) + (match r.label {
                Some(l) => label_problems(p, o, ins, qs, ids, l),
                None => Seq::empty(),
            }) + fields_problems(schema, p, o, ins, qs, r.fields@, r.fields@.len() as int)
    }
}

/// The problems of the first `n` outputs.
pub open spec fn outputs_problems(
    schema: ProjectSchema,
    p: Seq<char>,
    ins: Seq<(Seq<char>, TypeRefView)>,
    qs: Map<Seq<char>, TypeRefView>,
    ids: Set<Seq<char>>,
    os: Seq<Named<RawPresentationAffordanceOutputDefinition>>,
    n: int,
) -> Seq<Problem>
    decreases n,
{
    if n <= 0 {
        Seq::empty()
    } else {
        outputs_problems(schema, p, ins, qs, ids, os, n - 1) + output_problems(schema, p, ins, qs, label_ids_after(ids, os, n - 1), os, n - 1)
    }
}

/// The pending type references of the first `n` outputs.
pub open spec fn outputs_pending(p: Seq<char>, os: Seq<Named<RawPresentationAffordanceOutputDefinition>>, n: int) -> Seq<(Seq<char>, TypeRefView)>
    decreases n,
{
    if n <= 0 {
        Seq::empty()
    } else {
        outputs_pending(p, os, n - 1) + if output_first(os, n - 1) {
            let o = os[n - 1].name@;
            let r = os[n - 1].value;
            (match r.label {
                Some(l) => label_args_pending(p, o, l.args@, l.args@.len() as int),
                None => Seq::empty(),
            }) + fields_pending(p, o, r.fields@, r.fields@.len() as int)
        } else {
            Seq::empty()
        }
    }
}

/// The output a raw output lowers to.
pub open spec fn output_lowered(
    d: PresentationAffordanceOutputDefinition,
    schema: ProjectSchema,
    p: Seq<char>,
    ins: Seq<(Seq<char>, TypeRefView)>,
    qs: Map<Seq<char>, TypeRefView>,
    e: Named<RawPresentationAffordanceOutputDefinition>,
) -> bool {
    &&& d.target == output_target_of(e.value.target@)
    &&& d.kind@ == e.value.kind@
    &&& d.slot@ == e.value.slot@
    &&& match (d.label, e.value.label) {
        (Some(l), Some(rl)) => label_lowered(l, rl),
        (None, None) => true,
        _ => false,
    }
    &&& fields_lowered(d.fields, schema, p, e.name@, ins, qs, e.value.fields@, e.value.fields@.len() as int)
}

/// The lowered outputs agree with the first output of each name.
pub open spec fn outputs_lowered(
    r: StrMap<PresentationAffordanceOutputDefinition>,
    schema: ProjectSchema,
    p: Seq<char>,
    ins: Seq<(Seq<char>, TypeRefView)>,
    qs: Map<Seq<char>, TypeRefView>,
    os: Seq<Named<RawPresentationAffordanceOutputDefinition>>,
    n: int,
) -> bool {
    &&& forall|k: Seq<char>| #[trigger] r.has(k) <==> exists|i: int| 0 <= i < n && output_first(os, i) && os[i].name@ == k
    &&& forall|i: int| 0 <= i < n && #[trigger] output_first(os, i) ==> (r.spec_get(os[i].name@) matches Some(d)
        && output_lowered(d, schema, p, ins, qs, os[i]))
}

/// Lower a projector's outputs: the first output of each name is kept with
/// its target, kind, slot, label and fields.
pub fn lower_outputs(
    file: &str,
    source: &[char],
    spans: &mut ManifestSpans,
    diagnostics: &mut Vec<Diagnostic>,
    schema: &ProjectSchema,
    p: &str,
    inputs: &Vec<ProjectionInput>,
    query_types: &StrMap<SchemaTypeRef>,
    Ghost(qs): Ghost<Map<Seq<char>, TypeRefView>>,
    raw_outputs: Vec<Named<RawPresentationAffordanceOutputDefinition>>,
    seen_label_ids: &mut StrSet,
    pending_type_refs: &mut Vec<PendingTypeReference>,
) -> (r: StrMap<PresentationAffordanceOutputDefinition>)
    requires
        types_lowered(*query_types, qs),
    ensures
        reported(old(diagnostics)@, final(diagnostics)@, outputs_problems(*schema, p@, input_type_views(inputs@), qs,
            old(seen_label_ids).elem_set(), raw_outputs@, raw_outputs@.len() as int)),
        pending_added(old(pending_type_refs)@, final(pending_type_refs)@, outputs_pending(p@, raw_outputs@, raw_outputs@.len() as int)),
        final(seen_label_ids).elem_set() == label_ids_after(old(seen_label_ids).elem_set(), raw_outputs@, raw_outputs@.len() as int),
        outputs_lowered(r, *schema, p@, input_type_views(inputs@), qs, raw_outputs@, raw_outputs@.len() as int),
{
    let ghost os = raw_outputs@;
    let ghost names = entry_names(os);
    let ghost iv = input_type_views(inputs@);
    let ghost ids0 = seen_label_ids.elem_set();
    let ghost start = diagnostics@;
    let ghost pstart = pending_type_refs@;
    let mut raw_outputs = raw_outputs;
    let mut seen = StrSet::new();
    let mut lowered: StrMap<PresentationAffordanceOutputDefinition> = StrMap::new();
    let mut i: usize = 0;
    let total = raw_outputs.len();
    proof {
        lemma_reported_none(start);
        assert(pending_type_refs@.subrange(0, pstart.len() as int) =~= pstart);
        assert(pending_views(pending_type_refs@.subrange(pstart.len() as int, pstart.len() as int)) =~= Seq::<(Seq<char>, TypeRefView)>::empty());
        assert(os.subrange(0, os.len() as int) =~= os);
    }
    while raw_outputs.len() > 0
        invariant
            total == os.len(),
            names == entry_names(os),
            iv == input_type_views(inputs@),
            types_lowered(*query_types, qs),
            i <= os.len(),
            raw_outputs@ == os.subrange(i as int, os.len() as int),
            forall|n: Seq<char>| #[trigger] seen.elem_set().contains(n) <==> names.take(i as int).contains(n),
            seen_label_ids.elem_set() == label_ids_after(ids0, os, i as int),
            reported(start, diagnostics@, outputs_problems(*schema, p@, iv, qs, ids0, os, i as int)),
            pending_added(pstart, pending_type_refs@, outputs_pending(p@, os, i as int)),
            outputs_lowered(lowered, *schema, p@, iv, qs, os, i as int),
        decreases raw_outputs@.len(),
    {
        let raw = raw_outputs.remove(0);
        let ghost mid = diagnostics@;
        let ghost pmid = pending_type_refs@;
        let ghost before = lowered;
        let ghost ids = seen_label_ids.elem_set();
        proof {
            assert(raw == os[i as int]);
            assert(raw_outputs@ =~= os.subrange(i + 1, os.len() as int));
            assert(names[i as int] == raw.name@);
            assert(names.take(i + 1) =~= names.take(i as int).push(raw.name@));
        }
        let Named { name, value } = raw;
        let RawPresentationAffordanceOutputDefinition { target, kind, slot, label, fields } = value;
        let span = spans.next_string_span(file, source, name.as_str());
        let dup_span = span.copy();
        validate_manifest_name(diagnostics, "projection output id", name.as_str(), span);
        let ghost m1 = diagnostics@;
        let ghost p0 = if !spec_is_manifest_name(name@) { seq![problem_of(invalid_name_view("projection output id"@, arbitrary()))] } else { Seq::<Problem>::empty() };
        proof {
            lemma_reported_none(mid);
            if !spec_is_manifest_name(name@) {
                lemma_reported_push(mid, mid, Seq::empty(), m1.last(), p0[0]);
                assert(m1 =~= mid.push(m1.last()));
                assert(Seq::<Problem>::empty().push(p0[0]) =~= p0);
            } else {
                assert(m1 =~= mid);
            }
        }
        let ghost seen_before = seen;
        proof {
            assert(seen_before.elem_set().contains(name@) == seen_before.elems().contains(name@));
        }
        let fresh = seen.insert(crate::text::copy_string(&name));
        proof {
            assert forall|n: Seq<char>| #[trigger] seen.elem_set().contains(n) <==> names.take(i + 1).contains(n) by {
                lemma_push_contains_seq_pub(names.take(i as int), name@, n);
            }
            assert(fresh == output_first(os, i as int));
        }
        let ghost whole = output_problems(*schema, p@, iv, qs, ids, os, i as int);
        let ghost rest = whole.subrange(p0.len() as int, whole.len() as int);
        proof {
            assert(whole =~= p0 + rest);
        }
        if !fresh {
            let mut message = crate::text::concat3("projector '", p, "' repeats output '");
            crate::text::push_text(&mut message, name.as_str());
            crate::text::push_text(&mut message, "'");
            let dargs = vec![text_arg("projector", p), text_arg("output", name.as_str())];
            proof {
                assert(crate::diagnostics::arguments_view(dargs@) =~= seq![("projector"@, ArgumentView::Text(p@)), ("output"@, ArgumentView::Text(name@))]);
            }
            report(diagnostics, crate::diagnostics::duplicate_definition_code(), "diagnostic-schema-003-projection-output", message, dup_span, dargs);
            proof {
                lemma_reported_trans(mid, m1, diagnostics@, p0, rest);
                lemma_reported_trans(start, mid, diagnostics@, outputs_problems(*schema, p@, iv, qs, ids0, os, i as int), whole);
                assert(outputs_pending(p@, os, i + 1) =~= outputs_pending(p@, os, i as int));
                assert forall|k: Seq<char>| #[trigger] lowered.has(k) <==> exists|j: int| 0 <= j < i + 1 && output_first(os, j) && os[j].name@ == k by {
                    if exists|j: int| 0 <= j < i + 1 && output_first(os, j) && os[j].name@ == k {
                        let j = choose|j: int| 0 <= j < i + 1 && output_first(os, j) && os[j].name@ == k;
                        assert(j != i);
                    }
                }
            }
            i = i + 1;
            continue;
        }
        let target_span = spans.next_string_span(file, source, target.as_str());
        let t = lower_output_target(diagnostics, p, name.as_str(), target.as_str(), target_span);
        let ghost m2 = diagnostics@;
        let kind_span = spans.next_string_span(file, source, kind.as_str());
        validate_non_empty_string(diagnostics, "projection output kind", kind.as_str(), kind_span);
        let ghost m3 = diagnostics@;
        let slot_span = spans.next_string_span(file, source, slot.as_str());
        validate_non_empty_string(diagnostics, "projection output slot", slot.as_str(), slot_span);
        let ghost m4 = diagnostics@;
        let ghost pk = empty_field_problems("projection output kind"@, kind@);
        let ghost ps = empty_field_problems("projection output slot"@, slot@);
        proof {
            lemma_reported_none(m2);
            if kind@.len() == 0 {
                lemma_reported_push(m2, m2, Seq::empty(), m3.last(), pk[0]);
                assert(m3 =~= m2.push(m3.last()));
                assert(Seq::<Problem>::empty().push(pk[0]) =~= pk);
            } else {
                assert(m3 =~= m2);
            }
            lemma_reported_none(m3);
            if slot@.len() == 0 {
                lemma_reported_push(m3, m3, Seq::empty(), m4.last(), ps[0]);
                assert(m4 =~= m3.push(m4.last()));
                assert(Seq::<Problem>::empty().push(ps[0]) =~= ps);
            } else {
                assert(m4 =~= m3);
            }
        }
        let ghost rlabel = label;
        let ghost p4 = pending_type_refs@;
        let lowered_label = match label {
            Some(l) => Some(lower_label(file, source, spans, diagnostics, p, name.as_str(), l, inputs, query_types, Ghost(qs),
                seen_label_ids, pending_type_refs)),
            None => {
                proof {
                    lemma_reported_none(m4);
                    assert(pending_type_refs@.subrange(0, p4.len() as int) =~= p4);
                    assert(pending_views(pending_type_refs@.subrange(p4.len() as int, p4.len() as int)) =~= Seq::<(Seq<char>, TypeRefView)>::empty());
                }
                None
            },
        };
        let ghost m5 = diagnostics@;
        let ghost p5 = pending_type_refs@;
        let ghost rfields = fields@;
        let lowered_fields = lower_fields(file, source, spans, diagnostics, schema, p, name.as_str(), fields, inputs, query_types, Ghost(qs), pending_type_refs);
        proof {
            let pl = match rlabel {
                Some(l) => label_problems(p@, name@, iv, qs, ids, l),
                None => Seq::<Problem>::empty(),
            };
            let pf = fields_problems(*schema, p@, name@, iv, qs, rfields, rfields.len() as int);
            let pt = output_target_problems(p@, name@, target@);
            lemma_reported_trans(m1, m2, m3, pt, pk);
            lemma_reported_trans(m1, m3, m4, pt + pk, ps);
            lemma_reported_trans(m1, m4, m5, pt + pk + ps, pl);
            lemma_reported_trans(m1, m5, diagnostics@, pt + pk + ps + pl, pf);
            assert(rest =~= pt + pk + ps + pl + pf);
            lemma_reported_trans(mid, m1, diagnostics@, p0, rest);
            lemma_reported_trans(start, mid, diagnostics@, outputs_problems(*schema, p@, iv, qs, ids0, os, i as int), whole);
            let lp = match rlabel {
                Some(l) => label_args_pending(p@, name@, l.args@, l.args@.len() as int),
                None => Seq::<(Seq<char>, TypeRefView)>::empty(),
            };
            let fp = fields_pending(p@, name@, rfields, rfields.len() as int);
            crate::manifest::lower::functions::lemma_pending_added_trans(pmid, p5, pending_type_refs@, lp, fp);
            crate::manifest::lower::functions::lemma_pending_added_trans(pstart, pmid, pending_type_refs@, outputs_pending(p@, os, i as int), lp + fp);
            assert(outputs_pending(p@, os, i + 1) =~= outputs_pending(p@, os, i as int) + (lp + fp));
        }
        lowered.insert(name, PresentationAffordanceOutputDefinition {
            target: t,
            kind,
            slot,
            label: lowered_label,
            fields: lowered_fields,
        });
        proof {
            assert forall|k: Seq<char>| #[trigger] lowered.has(k) <==> exists|j: int| 0 <= j < i + 1 && output_first(os, j) && os[j].name@ == k by {
                assert(lowered.keys().to_set().contains(k) == lowered.has(k));
                assert(before.keys().to_set().contains(k) == before.has(k));
                if k == os[i as int].name@ {
                    assert(output_first(os, i as int) && os[i as int].name@ == k);
                }
                if exists|j: int| 0 <= j < i + 1 && output_first(os, j) && os[j].name@ == k {
                    let j = choose|j: int| 0 <= j < i + 1 && output_first(os, j) && os[j].name@ == k;
                    if j < i {
                        assert(exists|j2: int| 0 <= j2 < i && output_first(os, j2) && os[j2].name@ == k);
                    }
                }
            }
            assert forall|j: int| 0 <= j < i + 1 && #[trigger] output_first(os, j) implies (lowered.spec_get(os[j].name@) matches Some(d)
                && output_lowered(d, *schema, p@, iv, qs, os[j])) by {
                if j < i {
                    if names[j] == names[i as int] {
                        assert(names.take(i as int)[j] == names[i as int]);
                    }
                    assert(names[j] == os[j].name@);
                }
            }
        }
        i = i + 1;
    }
    lowered
}

} // verus!
