//! Presentation projector candidates and inputs: the candidate selector,
//! and each input's type and source, checked against the selector.
use vstd::prelude::*;
use crate::collections::StrSet;
use crate::diagnostics::{
    lemma_reported_none, lemma_reported_push, lemma_reported_trans, problem_of, problem_with,
    report, reported, text_arg, ArgumentView, Diagnostic, Problem, SourceSpan,
};
use crate::manifest::lower::bindings::{float_problem, literal_kind, value_known, LiteralView};
use crate::manifest::lower::definitions::lemma_push_contains_seq_pub;
use crate::manifest::lower::domains::shape_problem;
use crate::manifest::lower::parameters::{
    invalid_type_problem, lower_type_reference_with_context, lowered_type, pending_added,
    pending_views, type_ref_name, type_ref_text, TypeReferenceContext,
};
use crate::manifest::lower::producer::empty_field_problems;
use crate::manifest::raw::{RawMetadataOccurrence, RawProjectionInput, RawProjectionInputSource, RawProjectionSelector, RawValue};
use crate::manifest::spans::ManifestSpans;
use crate::manifest::validate::{
    invalid_name_view, metadata_target_of, parse_metadata_target, spec_is_manifest_name, type_ref_at,
    validate_manifest_name, validate_non_empty_string, PendingTypeReference,
};
use crate::manifest::version::{i64_text_value, parse_i64};
use crate::model::{
    AvailabilityReasonId, MetadataOccurrence, MetadataTarget, ProjectSchema, ProjectionInput,
    SchemaLiteralValue, SchemaProjectionInputSource, SchemaProjectionSelector, SchemaTypeDefinition,
    SchemaTypeRef, TypeRefView,
};

verus! {

// ---------------------------------------------------------------------------
// Candidate selector.

/// Character-level view of a candidate selector.
pub enum SelectorView {
    RuntimeEvent(Seq<char>),
    MetadataKey(MetadataTarget, Seq<char>),
    MetadataSet(MetadataTarget, Seq<Seq<char>>),
    AvailabilityReason(Seq<char>),
}

/// View of a candidate selector.
pub open spec fn selector_view(s: SchemaProjectionSelector) -> SelectorView {
    match s {
        SchemaProjectionSelector::RuntimeEvent { kind } => SelectorView::RuntimeEvent(kind@),
        SchemaProjectionSelector::MetadataKey { target, key } => SelectorView::MetadataKey(target, key@),
        SchemaProjectionSelector::MetadataSet { target, required_keys } => SelectorView::MetadataSet(
            target,
            required_keys@.map_values(|k: String| k@),
        ),
        SchemaProjectionSelector::AvailabilityReason { reason_id } => SelectorView::AvailabilityReason(reason_id.text()),
    }
}

/// The name of a metadata target.
pub open spec fn target_name(t: MetadataTarget) -> Seq<char> {
    match t {
        MetadataTarget::Block => "block"@,
        MetadataTarget::Choice => "choice"@,
        MetadataTarget::Line => "line"@,
        MetadataTarget::Project => "project"@,
    }
}

fn target_name_text(t: MetadataTarget) -> (r: &'static str)
    ensures
        r@ == target_name(t),
{
    proof {
        reveal_strlit("block");
        reveal_strlit("choice");
        reveal_strlit("line");
        reveal_strlit("project");
    }
    match t {
        MetadataTarget::Block => "block",
        MetadataTarget::Choice => "choice",
        MetadataTarget::Line => "line",
        MetadataTarget::Project => "project",
    }
}

/// The problems of a projector's metadata key on a target.
pub open spec fn metadata_key_problems(schema: ProjectSchema, p: Seq<char>, key: Seq<char>, t: MetadataTarget) -> Seq<Problem> {
    match schema.metadata.spec_get(key) {
        None => seq![problem_with(
            "RECITE_SCHEMA004"@,
            "diagnostic-schema-004-unknown-metadata-key"@,
            "projector '"@ + p + "' references unknown metadata key '"@ + key + "'"@,
            seq![("projector"@, ArgumentView::Text(p)), ("key"@, ArgumentView::Text(key))],
        )],
        Some(md) => if md.targets.has(t) {
            Seq::empty()
        } else {
            seq![shape_problem(
                "diagnostic-schema-001-projection-metadata-target"@,
                "projector '"@ + p + "' references metadata key '"@ + key + "' on unsupported target '"@ + target_name(t) + "'"@,
                seq![("projector"@, ArgumentView::Text(p)), ("key"@, ArgumentView::Text(key)),
                    ("target"@, ArgumentView::Text(target_name(t)))],
            )]
        },
    }
}

/// Check that a metadata key is declared and allows the target.
pub fn validate_metadata_key_target(
    diagnostics: &mut Vec<Diagnostic>,
    schema: &ProjectSchema,
    projector: &str,
    key: &str,
    target: MetadataTarget,
    span: SourceSpan,
)
    ensures
        reported(old(diagnostics)@, final(diagnostics)@, metadata_key_problems(*schema, projector@, key@, target)),
{
    match schema.metadata.get(key) {
        None => {
            let mut message = crate::text::concat3("projector '", projector, "' references unknown metadata key '");
            crate::text::push_text(&mut message, key);
            crate::text::push_text(&mut message, "'");
            let args = vec![text_arg("projector", projector), text_arg("key", key)];
            proof {
                assert(crate::diagnostics::arguments_view(args@) =~= seq![("projector"@, ArgumentView::Text(projector@)), ("key"@, ArgumentView::Text(key@))]);
            }
            report(diagnostics, crate::diagnostics::invalid_type_reference(), "diagnostic-schema-004-unknown-metadata-key", message, span, args);
        },
        Some(md) => {
            if !md.targets.contains(target) {
                let name = target_name_text(target);
                let mut message = crate::text::concat3("projector '", projector, "' references metadata key '");
                crate::text::push_text(&mut message, key);
                crate::text::push_text(&mut message, "' on unsupported target '");
                crate::text::push_text(&mut message, name);
                crate::text::push_text(&mut message, "'");
                let args = vec![text_arg("projector", projector), text_arg("key", key), text_arg("target", name)];
                proof {
                    assert(crate::diagnostics::arguments_view(args@) =~= seq![("projector"@, ArgumentView::Text(projector@)),
                        ("key"@, ArgumentView::Text(key@)), ("target"@, ArgumentView::Text(target_name(target)))]);
                }
                report(diagnostics, crate::diagnostics::malformed_shape(), "diagnostic-schema-001-projection-metadata-target", message, span, args);
            } else {
                proof {
                    lemma_reported_none(diagnostics@);
                }
            }
        },
    }
}

/// The problem of an unsupported selector target.
pub open spec fn selector_target_problem(target: Seq<char>) -> Problem {
    shape_problem(
        "diagnostic-schema-001-projection-selector-target"@,
        "presentation projector uses unsupported metadata target '"@ + target + "'"@,
        seq![("target"@, ArgumentView::Text(target))],
    )
}

/// The problems of the first `n` required keys of a metadata set selector.
pub open spec fn required_keys_problems(schema: ProjectSchema, p: Seq<char>, t: MetadataTarget, keys: Seq<Seq<char>>, n: int) -> Seq<Problem>
    decreases n,
{
    if n <= 0 {
        Seq::empty()
    } else {
        let k = keys[n - 1];
        required_keys_problems(schema, p, t, keys, n - 1) + metadata_key_problems(schema, p, k, t) + if keys.take(n - 1).contains(k) {
            seq![problem_with(
                "RECITE_SCHEMA003"@,
                "diagnostic-schema-003-required-metadata"@,
                "projector '"@ + p + "' repeats required metadata key '"@ + k + "'"@,
                seq![("projector"@, ArgumentView::Text(p)), ("key"@, ArgumentView::Text(k))],
            )]
        } else {
            Seq::empty()
        }
    }
}

/// The problems of a raw selector, and the selector it lowers to.
pub open spec fn selector_outcome(schema: ProjectSchema, p: Seq<char>, raw: RawProjectionSelector) -> (Seq<Problem>, Option<SelectorView>) {
    match raw {
        RawProjectionSelector::RuntimeEvent { event } => (
            empty_field_problems("projection runtime event kind"@, event@),
            Some(SelectorView::RuntimeEvent(event@)),
        ),
        RawProjectionSelector::MetadataKey { target, key } => match metadata_target_of(target@) {
            None => (seq![selector_target_problem(target@)], None),
            Some(t) => (metadata_key_problems(schema, p, key@, t), Some(SelectorView::MetadataKey(t, key@))),
        },
        RawProjectionSelector::MetadataSet { target, required_keys } => match metadata_target_of(target@) {
            None => (seq![selector_target_problem(target@)], None),
            Some(t) => {
                let keys = required_keys@.map_values(|k: String| k@);
                (required_keys_problems(schema, p, t, keys, keys.len() as int), Some(SelectorView::MetadataSet(t, keys)))
            },
        },
        RawProjectionSelector::AvailabilityReason { reason } => if !spec_is_manifest_name(reason@) {
            (seq![problem_of(invalid_name_view("availability reason id"@, arbitrary()))], None)
        } else if !schema.availability_reasons.has(reason@) {
            (seq![problem_with(
                "RECITE_SCHEMA004"@,
                "diagnostic-schema-004-unknown-projection-reason"@,
                "projector '"@ + p + "' references unknown availability reason '"@ + reason@ + "'"@,
                seq![("projector"@, ArgumentView::Text(p)), ("reason"@, ArgumentView::Text(reason@))],
            )], Some(SelectorView::AvailabilityReason(reason@)))
        } else {
            (Seq::empty(), Some(SelectorView::AvailabilityReason(reason@)))
        },
    }
}

fn lower_selector_target(
    file: &str,
    source: &[char],
    spans: &mut ManifestSpans,
    diagnostics: &mut Vec<Diagnostic>,
    raw: &str,
) -> (r: Option<MetadataTarget>)
    ensures
        r == metadata_target_of(raw@),
        r is Some ==> final(diagnostics)@ == old(diagnostics)@,
        r is None ==> reported(old(diagnostics)@, final(diagnostics)@, seq![selector_target_problem(raw@)]),
{
    let span = spans.next_string_span(file, source, raw);
    match parse_metadata_target(raw) {
        Some(t) => Some(t),
        None => {
            let message = crate::text::concat3("presentation projector uses unsupported metadata target '", raw, "'");
            let args = vec![text_arg("target", raw)];
            proof {
                assert(crate::diagnostics::arguments_view(args@) =~= seq![("target"@, ArgumentView::Text(raw@))]);
            }
            report(diagnostics, crate::diagnostics::malformed_shape(), "diagnostic-schema-001-projection-selector-target", message, span, args);
            None
        },
    }
}

/// Lower a projector's candidate selector.
pub fn lower_selector(
    file: &str,
    source: &[char],
    spans: &mut ManifestSpans,
    diagnostics: &mut Vec<Diagnostic>,
    schema: &ProjectSchema,
    projector: &str,
    raw: RawProjectionSelector,
) -> (r: Option<SchemaProjectionSelector>)
    ensures
        reported(old(diagnostics)@, final(diagnostics)@, selector_outcome(*schema, projector@, raw).0),
        match (r, selector_outcome(*schema, projector@, raw).1) {
            (Some(s), Some(v)) => selector_view(s) == v,
            (None, None) => true,
            _ => false,
        },
{
    let ghost raw0 = raw;
    let ghost start = diagnostics@;
    match raw {
        RawProjectionSelector::RuntimeEvent { event } => {
            let span = spans.next_string_span(file, source, event.as_str());
            validate_non_empty_string(diagnostics, "projection runtime event kind", event.as_str(), span);
            proof {
                lemma_reported_none(start);
                if event@.len() == 0 {
                    lemma_reported_push(start, start, Seq::empty(), diagnostics@.last(),
                        problem_of(crate::manifest::validate::empty_value_view("projection runtime event kind"@, arbitrary())));
                    assert(diagnostics@ =~= start.push(diagnostics@.last()));
                    assert(Seq::<Problem>::empty().push(problem_of(crate::manifest::validate::empty_value_view(
                        "projection runtime event kind"@, arbitrary()))) =~= empty_field_problems("projection runtime event kind"@, event@));
                }
            }
            Some(SchemaProjectionSelector::RuntimeEvent { kind: event })
        },
        RawProjectionSelector::MetadataKey { target, key } => {
            let t = match lower_selector_target(file, source, spans, diagnostics, target.as_str()) {
                Some(t) => t,
                None => {
                    return None;
                },
            };
            let span = spans.next_string_span(file, source, key.as_str());
            validate_metadata_key_target(diagnostics, schema, projector, key.as_str(), t, span);
            Some(SchemaProjectionSelector::MetadataKey { target: t, key })
        },
        RawProjectionSelector::MetadataSet { target, required_keys } => {
            let t = match lower_selector_target(file, source, spans, diagnostics, target.as_str()) {
                Some(t) => t,
                None => {
                    return None;
                },
            };
            let ghost keys = required_keys@.map_values(|k: String| k@);
            let mut seen = StrSet::new();
            let mut i: usize = 0;
            proof {
                lemma_reported_none(start);
            }
            while i < required_keys.len()
                invariant
                    keys == required_keys@.map_values(|k: String| k@),
                    i <= keys.len(),
                    forall|n: Seq<char>| #[trigger] seen.elem_set().contains(n) <==> keys.take(i as int).contains(n),
                    reported(start, diagnostics@, required_keys_problems(*schema, projector@, t, keys, i as int)),
                decreases keys.len() - i,
            {
                let key = &required_keys[i];
                let ghost mid = diagnostics@;
                proof {
                    assert(keys[i as int] == key@);
                    assert(keys.take(i + 1) =~= keys.take(i as int).push(key@));
                }
                let span = spans.next_string_span(file, source, key.as_str());
                let dup_span = span.copy();
                validate_metadata_key_target(diagnostics, schema, projector, key.as_str(), t, span);
                let ghost m1 = diagnostics@;
                let ghost seen_before = seen;
                proof {
                    assert(seen_before.elem_set().contains(key@) == seen_before.elems().contains(key@));
                }
                let fresh = seen.insert(crate::text::copy_string(key));
                proof {
                    assert forall|n: Seq<char>| #[trigger] seen.elem_set().contains(n) <==> keys.take(i + 1).contains(n) by {
                        lemma_push_contains_seq_pub(keys.take(i as int), key@, n);
                    }
                }
                let ghost dp = if !fresh {
                    seq![problem_with(
                        "RECITE_SCHEMA003"@,
                        "diagnostic-schema-003-required-metadata"@,
                        "projector '"@ + projector@ + "' repeats required metadata key '"@ + key@ + "'"@,
                        seq![("projector"@, ArgumentView::Text(projector@)), ("key"@, ArgumentView::Text(key@))],
                    )]
                } else {
                    Seq::<Problem>::empty()
                };
                if !fresh {
                    let mut message = crate::text::concat3("projector '", projector, "' repeats required metadata key '");
                    crate::text::push_text(&mut message, key.as_str());
                    crate::text::push_text(&mut message, "'");
                    let args = vec![text_arg("projector", projector), text_arg("key", key.as_str())];
                    proof {
                        assert(crate::diagnostics::arguments_view(args@) =~= seq![("projector"@, ArgumentView::Text(projector@)), ("key"@, ArgumentView::Text(key@))]);
                    }
                    report(diagnostics, crate::diagnostics::duplicate_definition_code(), "diagnostic-schema-003-required-metadata", message, dup_span, args);
                } else {
                    proof {
                        lemma_reported_none(m1);
                    }
                }
                proof {
                    lemma_reported_trans(mid, m1, diagnostics@, metadata_key_problems(*schema, projector@, key@, t), dp);
                    lemma_reported_trans(start, mid, diagnostics@, required_keys_problems(*schema, projector@, t, keys, i as int),
                        metadata_key_problems(*schema, projector@, key@, t) + dp);
                    assert(required_keys_problems(*schema, projector@, t, keys, i + 1) =~= required_keys_problems(*schema, projector@, t, keys, i as int)
                        + (metadata_key_problems(*schema, projector@, key@, t) + dp));
                }
                i = i + 1;
            }
            proof {
                assert(keys.take(keys.len() as int) =~= keys);
            }
            Some(SchemaProjectionSelector::MetadataSet { target: t, required_keys })
        },
        RawProjectionSelector::AvailabilityReason { reason } => {
            let span = spans.next_string_span(file, source, reason.as_str());
            if !validate_manifest_name(diagnostics, "availability reason id", reason.as_str(), span.copy()) {
                proof {
                    lemma_reported_none(start);
                    lemma_reported_push(start, start, Seq::empty(), diagnostics@.last(), problem_of(invalid_name_view("availability reason id"@, arbitrary())));
                    assert(diagnostics@ =~= start.push(diagnostics@.last()));
                    assert(Seq::<Problem>::empty().push(problem_of(invalid_name_view("availability reason id"@, arbitrary())))
                        =~= selector_outcome(*schema, projector@, raw0).0);
                }
                return None;
            }
            if !schema.availability_reasons.contains_key(reason.as_str()) {
                let mut message = crate::text::concat3("projector '", projector, "' references unknown availability reason '");
                crate::text::push_text(&mut message, reason.as_str());
                crate::text::push_text(&mut message, "'");
                let args = vec![text_arg("projector", projector), text_arg("reason", reason.as_str())];
                proof {
                    assert(crate::diagnostics::arguments_view(args@) =~= seq![("projector"@, ArgumentView::Text(projector@)), ("reason"@, ArgumentView::Text(reason@))]);
                }
                report(diagnostics, crate::diagnostics::invalid_type_reference(), "diagnostic-schema-004-unknown-projection-reason", message, span, args);
            } else {
                proof {
                    lemma_reported_none(start);
                }
            }
            match AvailabilityReasonId::new(reason) {
                Some(id) => Some(SchemaProjectionSelector::AvailabilityReason { reason_id: id }),
                None => None,
            }
        },
    }
}

// ---------------------------------------------------------------------------
// Literals.

/// A literal for a value of type `t`, or the problem.
pub open spec fn projection_literal_outcome(schema: ProjectSchema, owner: Seq<char>, t: TypeRefView, v: RawValue) -> Result<LiteralView, Problem> {
    match (t, v) {
        (TypeRefView::String, RawValue::String(s)) | (TypeRefView::Speaker, RawValue::String(s))
        | (TypeRefView::Enum(_), RawValue::String(s)) | (TypeRefView::Registry(_), RawValue::String(s)) => {
            if value_known(schema, t, s@) {
                Ok(LiteralView::String(s@))
            } else {
                Err(shape_problem(
                    "diagnostic-schema-001-projection-literal-unknown"@,
                    owner + " uses unknown "@ + type_ref_text(t) + " value '"@ + s@ + "'"@,
                    seq![("owner"@, ArgumentView::Text(owner)), ("expected"@, ArgumentView::Text(type_ref_text(t))),
                        ("value"@, ArgumentView::Text(s@))],
                ))
            }
        },
        (TypeRefView::Int, RawValue::Number(n)) => match i64_text_value(n.lexeme@) {
            Some(i) => Ok(LiteralView::Int(i)),
            None => Err(shape_problem(
                "diagnostic-schema-001-projection-literal-int"@,
                owner + " expects int, but got non-integer number"@,
                seq![("owner"@, ArgumentView::Text(owner))],
            )),
        },
        (TypeRefView::Float, RawValue::Number(n)) => if n.finite {
            Ok(LiteralView::Float(n.lexeme@))
        } else {
            Err(float_problem(owner))
        },
        (TypeRefView::Bool, RawValue::Bool(b)) => Ok(LiteralView::Bool(b)),
        _ => Err(shape_problem(
            "diagnostic-schema-001-projection-literal-type"@,
            owner + " expects "@ + type_ref_text(t) + ", but got "@ + literal_kind(v) + " literal"@,
            seq![("owner"@, ArgumentView::Text(owner)), ("expected"@, ArgumentView::Text(type_ref_text(t))),
                ("actual"@, ArgumentView::Text(literal_kind(v)))],
        )),
    }
}

/// The literal a projection literal source lowers to: the checked literal, or the empty string.
pub open spec fn projection_literal(schema: ProjectSchema, owner: Seq<char>, t: TypeRefView, v: RawValue) -> LiteralView {
    match projection_literal_outcome(schema, owner, t, v) {
        Ok(l) => l,
        Err(_) => LiteralView::String(Seq::empty()),
    }
}

/// The problems of a projection literal.
pub open spec fn projection_literal_problems(schema: ProjectSchema, owner: Seq<char>, t: TypeRefView, v: RawValue) -> Seq<Problem> {
    match projection_literal_outcome(schema, owner, t, v) {
        Ok(_) => Seq::empty(),
        Err(p) => seq![p],
    }
}

fn value_known_check(schema: &ProjectSchema, t: &SchemaTypeRef, value: &str) -> (r: bool)
    ensures
        r == value_known(*schema, t@, value@),
{
    match t {
        SchemaTypeRef::Speaker => schema.speakers.contains_key(value),
        SchemaTypeRef::Enum(name) => match schema.types.get(name.as_str()) {
            Some(SchemaTypeDefinition::Enum(d)) => {
                proof {
                    assert(d.values.elem_set().contains(value@) == d.values.elems().contains(value@));
                }
                d.values.contains(value)
            },
            None => true,
        },
        SchemaTypeRef::Registry(name) => match schema.registries.get(name.as_str()) {
            Some(d) => {
                proof {
                    assert(d.values.elem_set().contains(value@) == d.values.elems().contains(value@));
                }
                d.values.contains(value)
            },
            None => true,
        },
        _ => true,
    }
}

/// Lower a literal for a value of type `t`; an invalid one lowers to the empty string.
pub fn lower_literal_for_type(
    diagnostics: &mut Vec<Diagnostic>,
    schema: &ProjectSchema,
    owner: &str,
    t: &SchemaTypeRef,
    value: RawValue,
    span: SourceSpan,
) -> (r: SchemaLiteralValue)
    ensures
        crate::manifest::lower::bindings::literal_view(r) == projection_literal(*schema, owner@, t@, value),
        reported(old(diagnostics)@, final(diagnostics)@, projection_literal_problems(*schema, owner@, t@, value)),
{
    let ghost v0 = value;
    let is_string_type = match t {
        SchemaTypeRef::String | SchemaTypeRef::Speaker | SchemaTypeRef::Enum(_) | SchemaTypeRef::Registry(_) => true,
        _ => false,
    };
    proof {
        lemma_reported_none(diagnostics@);
    }
    match value {
        RawValue::String(s) if is_string_type => {
            if value_known_check(schema, t, s.as_str()) {
                SchemaLiteralValue::String(s)
            } else {
                let expected = type_ref_name(t);
                let mut message = crate::text::concat3(owner, " uses unknown ", expected.as_str());
                crate::text::push_text(&mut message, " value '");
                crate::text::push_text(&mut message, s.as_str());
                crate::text::push_text(&mut message, "'");
                let args = vec![text_arg("owner", owner), text_arg("expected", expected.as_str()), text_arg("value", s.as_str())];
                proof {
                    assert(crate::diagnostics::arguments_view(args@) =~= seq![("owner"@, ArgumentView::Text(owner@)),
                        ("expected"@, ArgumentView::Text(type_ref_text(t@))), ("value"@, ArgumentView::Text(s@))]);
                }
                report(diagnostics, crate::diagnostics::malformed_shape(), "diagnostic-schema-001-projection-literal-unknown", message, span, args);
                SchemaLiteralValue::String(String::new())
            }
        },
        RawValue::Number(n) if matches!(t, SchemaTypeRef::Int) => {
            let chars = crate::text::str_chars(n.lexeme.as_str());
            match parse_i64(chars.as_slice()) {
                Some(i) => SchemaLiteralValue::Int(i),
                None => {
                    let message = crate::text::concat2(owner, " expects int, but got non-integer number");
                    let args = vec![text_arg("owner", owner)];
                    proof {
                        assert(crate::diagnostics::arguments_view(args@) =~= seq![("owner"@, ArgumentView::Text(owner@))]);
                    }
                    report(diagnostics, crate::diagnostics::malformed_shape(), "diagnostic-schema-001-projection-literal-int", message, span, args);
                    SchemaLiteralValue::String(String::new())
                },
            }
        },
        RawValue::Number(n) if matches!(t, SchemaTypeRef::Float) => {
            let crate::manifest::raw::RawNumber { lexeme, finite } = n;
            match crate::manifest::lower::bindings::finite_f64_literal(diagnostics, owner, lexeme, finite, span) {
                Some(s) => SchemaLiteralValue::Float(s),
                None => SchemaLiteralValue::String(String::new()),
            }
        },
        RawValue::Bool(b) if matches!(t, SchemaTypeRef::Bool) => SchemaLiteralValue::Bool(b),
        other => {
            let expected = type_ref_name(t);
            let kind = literal_kind_name(&other);
            let mut message = crate::text::concat3(owner, " expects ", expected.as_str());
            crate::text::push_text(&mut message, ", but got ");
            crate::text::push_text(&mut message, kind);
            crate::text::push_text(&mut message, " literal");
            let args = vec![text_arg("owner", owner), text_arg("expected", expected.as_str()), text_arg("actual", kind)];
            proof {
                assert(crate::diagnostics::arguments_view(args@) =~= seq![("owner"@, ArgumentView::Text(owner@)),
                    ("expected"@, ArgumentView::Text(type_ref_text(t@))), ("actual"@, ArgumentView::Text(literal_kind(v0)))]);
            }
            report(diagnostics, crate::diagnostics::malformed_shape(), "diagnostic-schema-001-projection-literal-type", message, span, args);
            SchemaLiteralValue::String(String::new())
        },
    }
}

fn literal_kind_name(v: &RawValue) -> (r: &'static str)
    ensures
        r@ == literal_kind(*v),
{
    proof {
        reveal_strlit("null");
        reveal_strlit("bool");
        reveal_strlit("number");
        reveal_strlit("string");
        reveal_strlit("array");
        reveal_strlit("object");
    }
    match v {
        RawValue::Null => "null",
        RawValue::Bool(_) => "bool",
        RawValue::Number(_) => "number",
        RawValue::String(_) => "string",
        RawValue::Array(_) => "array",
        RawValue::Object(_) => "object",
    }
}

// ---------------------------------------------------------------------------
// Input sources.

/// Which candidate id an input reads.
pub enum CandidateKind {
    Line,
    Choice,
    Effect,
    Block,
    Project,
}

/// A candidate id source agrees with the selector.
pub open spec fn candidate_valid(sel: SelectorView, kind: CandidateKind) -> bool {
    match sel {
        SelectorView::MetadataKey(t, _) | SelectorView::MetadataSet(t, _) => match kind {
            CandidateKind::Line => t == MetadataTarget::Line,
            CandidateKind::Choice => t == MetadataTarget::Choice,
            CandidateKind::Block => t == MetadataTarget::Block,
            CandidateKind::Project => t == MetadataTarget::Project,
            CandidateKind::Effect => false,
        },
        SelectorView::RuntimeEvent(k) => match kind {
            CandidateKind::Effect => k == "effect"@,
            _ => true,
        },
        SelectorView::AvailabilityReason(_) => false,
    }
}

/// A problem about a projector's input with the projector and input as arguments.
pub open spec fn input_problem(id: Seq<char>, p: Seq<char>, input: Seq<char>, tail: Seq<char>) -> Problem {
    shape_problem(id, "projector '"@ + p + "' input '"@ + input + "'"@ + tail,
        seq![("projector"@, ArgumentView::Text(p)), ("input"@, ArgumentView::Text(input))])
}

fn report_input(diagnostics: &mut Vec<Diagnostic>, id: &str, p: &str, input: &str, tail: &str, extra: Vec<(String, crate::diagnostics::DiagnosticArgumentValue)>, span: SourceSpan)
    ensures
        reported(old(diagnostics)@, final(diagnostics)@, seq![shape_problem(id@, "projector '"@ + p@ + "' input '"@ + input@ + "'"@ + tail@,
            seq![("projector"@, ArgumentView::Text(p@)), ("input"@, ArgumentView::Text(input@))] + crate::diagnostics::arguments_view(extra@))]),
{
    let mut message = crate::text::concat3("projector '", p, "' input '");
    crate::text::push_text(&mut message, input);
    crate::text::push_text(&mut message, "'");
    crate::text::push_text(&mut message, tail);
    let mut args = vec![text_arg("projector", p), text_arg("input", input)];
    let ghost head = args@;
    let ghost ex = extra@;
    let mut extra = extra;
    args.append(&mut extra);
    proof {
        assert(crate::diagnostics::arguments_view(head) =~= seq![("projector"@, ArgumentView::Text(p@)), ("input"@, ArgumentView::Text(input@))]);
        assert(args@ =~= head + ex);
        assert(crate::diagnostics::arguments_view(args@) =~= crate::diagnostics::arguments_view(head) + crate::diagnostics::arguments_view(ex));
        assert(message@ =~= "projector '"@ + p@ + "' input '"@ + input@ + "'"@ + tail@);
    }
    report(diagnostics, crate::diagnostics::malformed_shape(), id, message, span, args);
}

/// The occurrence a raw occurrence names: absent is `Only`, and an unknown name too.
pub open spec fn occurrence_of(raw: Option<RawMetadataOccurrence>) -> MetadataOccurrence {
    match raw {
        None => MetadataOccurrence::Only,
        Some(RawMetadataOccurrence::Index(i)) => MetadataOccurrence::Index(i),
        Some(RawMetadataOccurrence::Named(n)) => if n@ == "first"@ {
            MetadataOccurrence::First
        } else if n@ == "last"@ {
            MetadataOccurrence::Last
        } else if n@ == "all"@ {
            MetadataOccurrence::All
        } else {
            MetadataOccurrence::Only
        },
    }
}

/// The occurrence names read as the occurrences they name; no occurrence
/// means the only one.
pub proof fn lemma_occurrence_names(n: String)
    ensures
        occurrence_of(None) == MetadataOccurrence::Only,
        n@ == "first"@ ==> occurrence_of(Some(RawMetadataOccurrence::Named(n))) == MetadataOccurrence::First,
        n@ == "last"@ ==> occurrence_of(Some(RawMetadataOccurrence::Named(n))) == MetadataOccurrence::Last,
        n@ == "all"@ ==> occurrence_of(Some(RawMetadataOccurrence::Named(n))) == MetadataOccurrence::All,
{
    reveal_strlit("first");
    reveal_strlit("last");
    reveal_strlit("all");
    assert("last"@[0] != "first"@[0]);
    assert("all"@[0] != "first"@[0] && "all"@[0] != "last"@[0]);
}

/// The problems of a raw occurrence.
pub open spec fn occurrence_problems(p: Seq<char>, input: Seq<char>, raw: Option<RawMetadataOccurrence>) -> Seq<Problem> {
    match raw {
        Some(RawMetadataOccurrence::Named(n)) => if n@ == "only"@ || n@ == "first"@ || n@ == "last"@ || n@ == "all"@ {
            Seq::empty()
        } else {
            seq![shape_problem(
                "diagnostic-schema-001-projection-occurrence"@,
                "projector '"@ + p + "' input '"@ + input + "' uses unsupported metadata occurrence '"@ + n@ + "'"@,
                seq![("projector"@, ArgumentView::Text(p)), ("input"@, ArgumentView::Text(input)), ("name"@, ArgumentView::Text(n@))],
            )]
        },
        _ => Seq::empty(),
    }
}

/// The name of an occurrence.
pub open spec fn occurrence_name(o: MetadataOccurrence) -> Seq<char> {
    match o {
        MetadataOccurrence::Only => "only"@,
        MetadataOccurrence::First => "first"@,
        MetadataOccurrence::Last => "last"@,
        MetadataOccurrence::Index(_) => "index"@,
        MetadataOccurrence::All => "all"@,
    }
}

fn occurrence_name_text(o: MetadataOccurrence) -> (r: &'static str)
    ensures
        r@ == occurrence_name(o),
{
    proof {
        reveal_strlit("only");
        reveal_strlit("first");
        reveal_strlit("last");
        reveal_strlit("index");
        reveal_strlit("all");
    }
    match o {
        MetadataOccurrence::Only => "only",
        MetadataOccurrence::First => "first",
        MetadataOccurrence::Last => "last",
        MetadataOccurrence::Index(_) => "index",
        MetadataOccurrence::All => "all",
    }
}

/// The metadata target of a selector, if it has one.
pub open spec fn selector_target(sel: SelectorView) -> Option<MetadataTarget> {
    match sel {
        SelectorView::MetadataKey(t, _) | SelectorView::MetadataSet(t, _) => Some(t),
        _ => None,
    }
}

/// The problem of an input type that differs from its metadata key's type.
pub open spec fn candidate_mismatch_problem(p: Seq<char>, input: Seq<char>, t: TypeRefView, key: Seq<char>, m: TypeRefView) -> Problem {
    shape_problem(
        "diagnostic-schema-001-projection-candidate-type-mismatch"@,
        "projector '"@ + p + "' input '"@ + input + "' expects "@ + type_ref_text(t) + ", but metadata key '"@ + key + "' has "@ + type_ref_text(m),
        seq![("projector"@, ArgumentView::Text(p)), ("input"@, ArgumentView::Text(input)), ("expected"@, ArgumentView::Text(type_ref_text(t))),
            ("key"@, ArgumentView::Text(key)), ("actual"@, ArgumentView::Text(type_ref_text(m)))],
    )
}

/// The problems of how an input's type and occurrence fit its metadata key's type.
pub open spec fn occurrence_type_problems(p: Seq<char>, input: Seq<char>, o: MetadataOccurrence, t: TypeRefView, key: Seq<char>, m: TypeRefView) -> Seq<Problem> {
    if o == MetadataOccurrence::All {
        match t {
            TypeRefView::Array(inner) => if *inner != m { seq![candidate_mismatch_problem(p, input, t, key, m)] } else { Seq::empty() },
            _ => seq![shape_problem(
                "diagnostic-schema-001-projection-occurrence-all-type"@,
                "projector '"@ + p + "' input '"@ + input + "' uses occurrence 'all' but has non-array type "@ + type_ref_text(t),
                seq![("projector"@, ArgumentView::Text(p)), ("input"@, ArgumentView::Text(input)), ("type_ref"@, ArgumentView::Text(type_ref_text(t)))],
            )],
        }
    } else if t is Array {
        seq![shape_problem(
            "diagnostic-schema-001-projection-occurrence-array"@,
            "projector '"@ + p + "' input '"@ + input + "' uses array type "@ + type_ref_text(t) + " without occurrence 'all'"@,
            seq![("projector"@, ArgumentView::Text(p)), ("input"@, ArgumentView::Text(input)), ("type_ref"@, ArgumentView::Text(type_ref_text(t)))],
        )]
    } else if t != m {
        seq![candidate_mismatch_problem(p, input, t, key, m)]
    } else {
        Seq::empty()
    }
}

/// The problems of an input that reads candidate metadata.
pub open spec fn candidate_metadata_problems(schema: ProjectSchema, p: Seq<char>, input: Seq<char>, sel: SelectorView, key: Seq<char>, o: MetadataOccurrence, t: TypeRefView) -> Seq<Problem> {
    match selector_target(sel) {
        None => seq![input_problem("diagnostic-schema-001-projection-candidate-no-target"@, p, input,
            " reads candidate metadata but its selector has no metadata target"@)],
        Some(tg) => metadata_key_problems(schema, p, key, tg) + match schema.metadata.spec_get(key) {
            None => Seq::empty(),
            Some(md) => (if !md.repeatable && o != MetadataOccurrence::Only {
                seq![shape_problem(
                    "diagnostic-schema-001-projection-occurrence-repeat"@,
                    "projector '"@ + p + "' input '"@ + input + "' uses repeated occurrence '"@ + occurrence_name(o)
                        + "' for non-repeatable metadata key '"@ + key + "'"@,
                    seq![("projector"@, ArgumentView::Text(p)), ("input"@, ArgumentView::Text(input)),
                        ("occurrence"@, ArgumentView::Text(occurrence_name(o))), ("key"@, ArgumentView::Text(key))],
                )]
            } else {
                Seq::empty()
            }) + occurrence_type_problems(p, input, o, t, key, md.type_ref@),
        },
    }
}

/// The type of the first parameter named `name`.
pub open spec fn first_param_type(ps: Seq<(Seq<char>, TypeRefView)>, name: Seq<char>) -> Option<TypeRefView>
    decreases ps.len(),
{
    if ps.len() == 0 {
        None
    } else if ps[0].0 == name {
        Some(ps[0].1)
    } else {
        first_param_type(ps.drop_first(), name)
    }
}

/// The problems of an input that reads an availability reason argument.
pub open spec fn reason_arg_problems(schema: ProjectSchema, p: Seq<char>, input: Seq<char>, sel: SelectorView, name: Seq<char>, t: TypeRefView) -> Seq<Problem> {
    match sel {
        SelectorView::AvailabilityReason(rid) => match schema.availability_reasons.spec_get(rid) {
            None => Seq::empty(),
            Some(rd) => match first_param_type(crate::manifest::lower::bindings::param_views(rd.params@), name) {
                None => seq![problem_with(
                    "RECITE_SCHEMA004"@,
                    "diagnostic-schema-004-projection-reason-arg"@,
                    "projector '"@ + p + "' input '"@ + input + "' references unknown availability reason argument '"@ + name + "'"@,
                    seq![("projector"@, ArgumentView::Text(p)), ("input"@, ArgumentView::Text(input)), ("name"@, ArgumentView::Text(name))],
                )],
                Some(pt) => if pt != t {
                    seq![shape_problem(
                        "diagnostic-schema-001-projection-reason-type"@,
                        "projector '"@ + p + "' input '"@ + input + "' expects "@ + type_ref_text(t) + ", but availability reason argument '"@
                            + name + "' has "@ + type_ref_text(pt),
                        seq![("projector"@, ArgumentView::Text(p)), ("input"@, ArgumentView::Text(input)), ("name"@, ArgumentView::Text(name)),
                            ("expected"@, ArgumentView::Text(type_ref_text(t))), ("actual"@, ArgumentView::Text(type_ref_text(pt)))],
                    )]
                } else {
                    Seq::empty()
                },
            },
        },
        _ => seq![input_problem("diagnostic-schema-001-projection-reason-no-selector"@, p, input,
            " reads an availability reason argument but its selector is not availability_reason"@)],
    }
}

/// Character-level view of an input source.
pub enum SourceView {
    EventKind,
    CandidateLineId,
    CandidateChoiceId,
    CandidateEffectRequestId,
    CandidateBlockId,
    CandidateProject,
    CandidateMetadata(Seq<char>, MetadataOccurrence),
    AvailabilityReasonArg(Seq<char>),
    Literal(LiteralView),
}

/// View of a lowered input source.
pub open spec fn source_view(s: SchemaProjectionInputSource) -> SourceView {
    match s {
        SchemaProjectionInputSource::EventKind => SourceView::EventKind,
        SchemaProjectionInputSource::CandidateLineId => SourceView::CandidateLineId,
        SchemaProjectionInputSource::CandidateChoiceId => SourceView::CandidateChoiceId,
        SchemaProjectionInputSource::CandidateEffectRequestId => SourceView::CandidateEffectRequestId,
        SchemaProjectionInputSource::CandidateBlockId => SourceView::CandidateBlockId,
        SchemaProjectionInputSource::CandidateProject => SourceView::CandidateProject,
        SchemaProjectionInputSource::CandidateMetadata { key, occurrence } => SourceView::CandidateMetadata(key@, occurrence),
        SchemaProjectionInputSource::AvailabilityReasonArg { name } => SourceView::AvailabilityReasonArg(name@),
        SchemaProjectionInputSource::Literal(l) => SourceView::Literal(crate::manifest::lower::bindings::literal_view(l)),
    }
}

/// `projector '<p>' input '<input>'`.
pub open spec fn input_owner(p: Seq<char>, input: Seq<char>) -> Seq<char> {
    "projector '"@ + p + "' input '"@ + input + "'"@
}

/// The problems of a candidate id source.
pub open spec fn candidate_problems(p: Seq<char>, input: Seq<char>, sel: SelectorView, kind: CandidateKind) -> Seq<Problem> {
    if candidate_valid(sel, kind) {
        Seq::empty()
    } else {
        seq![input_problem("diagnostic-schema-001-projection-candidate-source"@, p, input, " uses an incompatible candidate id source"@)]
    }
}

/// The problems of an input source, and the source it lowers to.
pub open spec fn source_outcome(schema: ProjectSchema, p: Seq<char>, sel: SelectorView, input: Seq<char>, t: TypeRefView, raw: RawProjectionInputSource) -> (Seq<Problem>, SourceView) {
    match raw {
        RawProjectionInputSource::EventKind => (Seq::empty(), SourceView::EventKind),
        RawProjectionInputSource::CandidateLineId => (candidate_problems(p, input, sel, CandidateKind::Line), SourceView::CandidateLineId),
        RawProjectionInputSource::CandidateChoiceId => (candidate_problems(p, input, sel, CandidateKind::Choice), SourceView::CandidateChoiceId),
        RawProjectionInputSource::CandidateEffectRequestId => (candidate_problems(p, input, sel, CandidateKind::Effect),
            SourceView::CandidateEffectRequestId),
        RawProjectionInputSource::CandidateBlockId => (candidate_problems(p, input, sel, CandidateKind::Block), SourceView::CandidateBlockId),
        RawProjectionInputSource::CandidateProject => (candidate_problems(p, input, sel, CandidateKind::Project), SourceView::CandidateProject),
        RawProjectionInputSource::CandidateMetadata { key, occurrence } => {
            let o = occurrence_of(occurrence);
            (occurrence_problems(p, input, occurrence) + candidate_metadata_problems(schema, p, input, sel, key@, o, t),
                SourceView::CandidateMetadata(key@, o))
        },
        RawProjectionInputSource::AvailabilityReasonArg { name } => (reason_arg_problems(schema, p, input, sel, name@, t),
            SourceView::AvailabilityReasonArg(name@)),
        RawProjectionInputSource::Literal { value } => (projection_literal_problems(schema, input_owner(p, input), t, value),
            SourceView::Literal(projection_literal(schema, input_owner(p, input), t, value))),
    }
}

fn check_candidate(diagnostics: &mut Vec<Diagnostic>, p: &str, input: &str, sel: &SchemaProjectionSelector, kind: CandidateKind, span: SourceSpan)
    ensures
        reported(old(diagnostics)@, final(diagnostics)@, candidate_problems(p@, input@, selector_view(*sel), kind)),
{
    proof {
        reveal_strlit("effect");
    }
    let valid = match (sel, kind) {
        (SchemaProjectionSelector::MetadataKey { target, .. }, CandidateKind::Line)
        | (SchemaProjectionSelector::MetadataSet { target, .. }, CandidateKind::Line) => matches!(target, MetadataTarget::Line),
        (SchemaProjectionSelector::MetadataKey { target, .. }, CandidateKind::Choice)
        | (SchemaProjectionSelector::MetadataSet { target, .. }, CandidateKind::Choice) => matches!(target, MetadataTarget::Choice),
        (SchemaProjectionSelector::MetadataKey { target, .. }, CandidateKind::Block)
        | (SchemaProjectionSelector::MetadataSet { target, .. }, CandidateKind::Block) => matches!(target, MetadataTarget::Block),
        (SchemaProjectionSelector::MetadataKey { target, .. }, CandidateKind::Project)
        | (SchemaProjectionSelector::MetadataSet { target, .. }, CandidateKind::Project) => matches!(target, MetadataTarget::Project),
        (SchemaProjectionSelector::RuntimeEvent { kind: k }, CandidateKind::Effect) => crate::text::str_eq(k.as_str(), "effect"),
        (SchemaProjectionSelector::RuntimeEvent { .. }, _) => true,
        _ => false,
    };
    if !valid {
        report_input(diagnostics, "diagnostic-schema-001-projection-candidate-source", p, input,
            " uses an incompatible candidate id source", Vec::new(), span);
        proof {
            assert(crate::diagnostics::arguments_view(Seq::<(String, crate::diagnostics::DiagnosticArgumentValue)>::empty()) =~= Seq::empty());
            assert(seq![("projector"@, ArgumentView::Text(p@)), ("input"@, ArgumentView::Text(input@))] + Seq::<(Seq<char>, ArgumentView)>::empty()
                =~= seq![("projector"@, ArgumentView::Text(p@)), ("input"@, ArgumentView::Text(input@))]);
        }
    } else {
        proof {
            lemma_reported_none(diagnostics@);
        }
    }
}

/// Lower a raw occurrence; an unknown name is reported and read as `only`.
pub fn lower_occurrence(
    diagnostics: &mut Vec<Diagnostic>,
    p: &str,
    input: &str,
    raw: Option<RawMetadataOccurrence>,
    span: SourceSpan,
) -> (r: MetadataOccurrence)
    ensures
        r == occurrence_of(raw),
        reported(old(diagnostics)@, final(diagnostics)@, occurrence_problems(p@, input@, raw)),
{
    proof {
        reveal_strlit("only");
        reveal_strlit("first");
        reveal_strlit("last");
        reveal_strlit("all");
        lemma_reported_none(diagnostics@);
    }
    let ghost r0 = raw;
    match raw {
        None => MetadataOccurrence::Only,
        Some(RawMetadataOccurrence::Index(i)) => MetadataOccurrence::Index(i),
        Some(RawMetadataOccurrence::Named(name)) => {
            proof {
                reveal_strlit("only");
                reveal_strlit("first");
                reveal_strlit("last");
                reveal_strlit("all");
                assert("only"@[0] != "first"@[0]);
                assert("only"@[0] != "last"@[0]);
                assert("only"@[0] != "all"@[0]);
                assert("first"@[0] != "last"@[0]);
                assert("first"@[0] != "all"@[0]);
                assert("last"@[0] != "all"@[0]);
            }
            if crate::text::str_eq(name.as_str(), "only") {
                MetadataOccurrence::Only
            } else if crate::text::str_eq(name.as_str(), "first") {
                MetadataOccurrence::First
            } else if crate::text::str_eq(name.as_str(), "last") {
                MetadataOccurrence::Last
            } else if crate::text::str_eq(name.as_str(), "all") {
                MetadataOccurrence::All
            } else {
                let mut message = crate::text::concat3("projector '", p, "' input '");
                crate::text::push_text(&mut message, input);
                crate::text::push_text(&mut message, "' uses unsupported metadata occurrence '");
                crate::text::push_text(&mut message, name.as_str());
                crate::text::push_text(&mut message, "'");
                let args = vec![text_arg("projector", p), text_arg("input", input), text_arg("name", name.as_str())];
                proof {
                    assert(crate::diagnostics::arguments_view(args@) =~= seq![("projector"@, ArgumentView::Text(p@)),
                        ("input"@, ArgumentView::Text(input@)), ("name"@, ArgumentView::Text(name@))]);
                }
                report(diagnostics, crate::diagnostics::malformed_shape(), "diagnostic-schema-001-projection-occurrence", message, span, args);
                MetadataOccurrence::Only
            }
        },
    }
}

fn report_type_message(
    diagnostics: &mut Vec<Diagnostic>,
    id: &str,
    p: &str,
    input: &str,
    middle: &str,
    t: &SchemaTypeRef,
    tail: &str,
    span: SourceSpan,
)
    ensures
        reported(old(diagnostics)@, final(diagnostics)@, seq![shape_problem(id@,
            "projector '"@ + p@ + "' input '"@ + input@ + middle@ + type_ref_text(t@) + tail@,
            seq![("projector"@, ArgumentView::Text(p@)), ("input"@, ArgumentView::Text(input@)), ("type_ref"@, ArgumentView::Text(type_ref_text(t@)))])]),
{
    let name = type_ref_name(t);
    let mut message = crate::text::concat3("projector '", p, "' input '");
    crate::text::push_text(&mut message, input);
    crate::text::push_text(&mut message, middle);
    crate::text::push_text(&mut message, name.as_str());
    crate::text::push_text(&mut message, tail);
    let args = vec![text_arg("projector", p), text_arg("input", input), text_arg("type_ref", name.as_str())];
    proof {
        assert(crate::diagnostics::arguments_view(args@) =~= seq![("projector"@, ArgumentView::Text(p@)),
            ("input"@, ArgumentView::Text(input@)), ("type_ref"@, ArgumentView::Text(type_ref_text(t@)))]);
    }
    report(diagnostics, crate::diagnostics::malformed_shape(), id, message, span, args);
}

fn report_candidate_mismatch(diagnostics: &mut Vec<Diagnostic>, p: &str, input: &str, t: &SchemaTypeRef, key: &str, m: &SchemaTypeRef, span: SourceSpan)
    ensures
        reported(old(diagnostics)@, final(diagnostics)@, seq![candidate_mismatch_problem(p@, input@, t@, key@, m@)]),
{
    let expected = type_ref_name(t);
    let actual = type_ref_name(m);
    let mut message = crate::text::concat3("projector '", p, "' input '");
    crate::text::push_text(&mut message, input);
    crate::text::push_text(&mut message, "' expects ");
    crate::text::push_text(&mut message, expected.as_str());
    crate::text::push_text(&mut message, ", but metadata key '");
    crate::text::push_text(&mut message, key);
    crate::text::push_text(&mut message, "' has ");
    crate::text::push_text(&mut message, actual.as_str());
    let args = vec![text_arg("projector", p), text_arg("input", input), text_arg("expected", expected.as_str()),
        text_arg("key", key), text_arg("actual", actual.as_str())];
    proof {
        assert(crate::diagnostics::arguments_view(args@) =~= candidate_mismatch_problem(p@, input@, t@, key@, m@).arguments);
    }
    report(diagnostics, crate::diagnostics::malformed_shape(), "diagnostic-schema-001-projection-candidate-type-mismatch", message, span, args);
}

/// Check an input that reads candidate metadata against the selector and the metadata key.
pub fn validate_candidate_metadata_source(
    diagnostics: &mut Vec<Diagnostic>,
    schema: &ProjectSchema,
    p: &str,
    input: &str,
    sel: &SchemaProjectionSelector,
    key: &str,
    o: MetadataOccurrence,
    t: &SchemaTypeRef,
    span: SourceSpan,
)
    ensures
        reported(old(diagnostics)@, final(diagnostics)@, candidate_metadata_problems(*schema, p@, input@, selector_view(*sel), key@, o, t@)),
{
    let ghost start = diagnostics@;
    let target = match sel {
        SchemaProjectionSelector::MetadataKey { target, .. } => *target,
        SchemaProjectionSelector::MetadataSet { target, .. } => *target,
        _ => {
            report_input(diagnostics, "diagnostic-schema-001-projection-candidate-no-target", p, input,
                " reads candidate metadata but its selector has no metadata target", Vec::new(), span);
            proof {
                assert(crate::diagnostics::arguments_view(Seq::<(String, crate::diagnostics::DiagnosticArgumentValue)>::empty()) =~= Seq::empty());
                assert(seq![("projector"@, ArgumentView::Text(p@)), ("input"@, ArgumentView::Text(input@))] + Seq::<(Seq<char>, ArgumentView)>::empty()
                    =~= seq![("projector"@, ArgumentView::Text(p@)), ("input"@, ArgumentView::Text(input@))]);
            }
            return;
        },
    };
    validate_metadata_key_target(diagnostics, schema, p, key, target, span.copy());
    let ghost m1 = diagnostics@;
    let md = match schema.metadata.get(key) {
        Some(md) => md,
        None => {
            proof {
                lemma_reported_none(m1);
                lemma_reported_trans(start, m1, m1, metadata_key_problems(*schema, p@, key@, target), Seq::empty());
            }
            return;
        },
    };
    let ghost rp = if !md.repeatable && o != MetadataOccurrence::Only {
        seq![shape_problem(
            "diagnostic-schema-001-projection-occurrence-repeat"@,
            "projector '"@ + p@ + "' input '"@ + input@ + "' uses repeated occurrence '"@ + occurrence_name(o)
                + "' for non-repeatable metadata key '"@ + key@ + "'"@,
            seq![("projector"@, ArgumentView::Text(p@)), ("input"@, ArgumentView::Text(input@)),
                ("occurrence"@, ArgumentView::Text(occurrence_name(o))), ("key"@, ArgumentView::Text(key@))],
        )]
    } else {
        Seq::<Problem>::empty()
    };
    let is_only = matches!(o, MetadataOccurrence::Only);
    if !md.repeatable && !is_only {
        let name = occurrence_name_text(o);
        let mut message = crate::text::concat3("projector '", p, "' input '");
        crate::text::push_text(&mut message, input);
        crate::text::push_text(&mut message, "' uses repeated occurrence '");
        crate::text::push_text(&mut message, name);
        crate::text::push_text(&mut message, "' for non-repeatable metadata key '");
        crate::text::push_text(&mut message, key);
        crate::text::push_text(&mut message, "'");
        let args = vec![text_arg("projector", p), text_arg("input", input), text_arg("occurrence", name), text_arg("key", key)];
        proof {
            assert(crate::diagnostics::arguments_view(args@) =~= rp[0].arguments);
        }
        report(diagnostics, crate::diagnostics::malformed_shape(), "diagnostic-schema-001-projection-occurrence-repeat", message, span.copy(), args);
    } else {
        proof {
            lemma_reported_none(m1);
        }
    }
    let ghost m2 = diagnostics@;
    let ghost tp = occurrence_type_problems(p@, input@, o, t@, key@, md.type_ref@);
    match o {
        MetadataOccurrence::All => {
            match t {
                SchemaTypeRef::Array(inner) => {
                    if !inner.same(&md.type_ref) {
                        report_candidate_mismatch(diagnostics, p, input, t, key, &md.type_ref, span);
                    } else {
                        proof {
                            lemma_reported_none(m2);
                        }
                    }
                },
                _ => {
                    report_type_message(diagnostics, "diagnostic-schema-001-projection-occurrence-all-type", p, input,
                        "' uses occurrence 'all' but has non-array type ", t, "", span);
                    proof {
                        reveal_strlit("");
                        reveal_strlit("' uses occurrence 'all' but has non-array type ");
                        reveal_strlit(" uses occurrence 'all' but has non-array type ");
                        reveal_strlit("'");
                    }
                },
            }
        },
        _ => {
            let is_array = match t {
                SchemaTypeRef::Array(_) => true,
                _ => false,
            };
            if is_array {
                report_type_message(diagnostics, "diagnostic-schema-001-projection-occurrence-array", p, input,
                    "' uses array type ", t, " without occurrence 'all'", span);
                proof {
                    reveal_strlit("' uses array type ");
                    reveal_strlit(" uses array type ");
                    reveal_strlit("'");
                }
            } else if !t.same(&md.type_ref) {
                report_candidate_mismatch(diagnostics, p, input, t, key, &md.type_ref, span);
            } else {
                proof {
                    lemma_reported_none(m2);
                }
            }
        },
    }
    proof {
        lemma_reported_trans(m1, m2, diagnostics@, rp, tp);
        lemma_reported_trans(start, m1, diagnostics@, metadata_key_problems(*schema, p@, key@, target), rp + tp);
    }
}

/// Index of the first parameter named `name`.
fn find_first_param(ps: &Vec<crate::model::ParameterDefinition>, name: &str) -> (r: Option<usize>)
    ensures
        match (r, first_param_type(crate::manifest::lower::bindings::param_views(ps@), name@)) {
            (Some(i), Some(t)) => i < ps@.len() && ps@[i as int].type_ref@ == t,
            (None, None) => true,
            _ => false,
        },
{
    let ghost v = crate::manifest::lower::bindings::param_views(ps@);
    let mut i: usize = 0;
    proof {
        assert(v.skip(0) =~= v);
    }
    while i < ps.len()
        invariant
            i <= ps@.len(),
            v == crate::manifest::lower::bindings::param_views(ps@),
            first_param_type(v, name@) == first_param_type(v.skip(i as int), name@),
        decreases ps@.len() - i,
    {
        proof {
            assert(v.skip(i as int)[0] == v[i as int]);
            assert(v.skip(i as int).drop_first() =~= v.skip(i + 1));
        }
        if crate::text::str_eq(ps[i].name.as_str(), name) {
            return Some(i);
        }
        i = i + 1;
    }
    proof {
        assert(v.skip(i as int).len() == 0);
    }
    None
}

/// Check an input that reads an availability reason argument.
pub fn validate_availability_reason_arg_source(
    diagnostics: &mut Vec<Diagnostic>,
    schema: &ProjectSchema,
    p: &str,
    input: &str,
    sel: &SchemaProjectionSelector,
    name: &str,
    t: &SchemaTypeRef,
    span: SourceSpan,
)
    ensures
        reported(old(diagnostics)@, final(diagnostics)@, reason_arg_problems(*schema, p@, input@, selector_view(*sel), name@, t@)),
{
    let reason_id = match sel {
        SchemaProjectionSelector::AvailabilityReason { reason_id } => reason_id,
        _ => {
            report_input(diagnostics, "diagnostic-schema-001-projection-reason-no-selector", p, input,
                " reads an availability reason argument but its selector is not availability_reason", Vec::new(), span);
            proof {
                assert(crate::diagnostics::arguments_view(Seq::<(String, crate::diagnostics::DiagnosticArgumentValue)>::empty()) =~= Seq::empty());
                assert(seq![("projector"@, ArgumentView::Text(p@)), ("input"@, ArgumentView::Text(input@))] + Seq::<(Seq<char>, ArgumentView)>::empty()
                    =~= seq![("projector"@, ArgumentView::Text(p@)), ("input"@, ArgumentView::Text(input@))]);
            }
            return;
        },
    };
    proof {
        lemma_reported_none(diagnostics@);
    }
    let rd = match schema.availability_reasons.get(reason_id.as_str()) {
        Some(rd) => rd,
        None => {
            return;
        },
    };
    match find_first_param(&rd.params, name) {
        None => {
            let mut message = crate::text::concat3("projector '", p, "' input '");
            crate::text::push_text(&mut message, input);
            crate::text::push_text(&mut message, "' references unknown availability reason argument '");
            crate::text::push_text(&mut message, name);
            crate::text::push_text(&mut message, "'");
            let args = vec![text_arg("projector", p), text_arg("input", input), text_arg("name", name)];
            proof {
                assert(crate::diagnostics::arguments_view(args@) =~= seq![("projector"@, ArgumentView::Text(p@)),
                    ("input"@, ArgumentView::Text(input@)), ("name"@, ArgumentView::Text(name@))]);
            }
            report(diagnostics, crate::diagnostics::invalid_type_reference(), "diagnostic-schema-004-projection-reason-arg", message, span, args);
        },
        Some(k) => {
            let pt = &rd.params[k].type_ref;
            if !pt.same(t) {
                let expected = type_ref_name(t);
                let actual = type_ref_name(pt);
                let mut message = crate::text::concat3("projector '", p, "' input '");
                crate::text::push_text(&mut message, input);
                crate::text::push_text(&mut message, "' expects ");
                crate::text::push_text(&mut message, expected.as_str());
                crate::text::push_text(&mut message, ", but availability reason argument '");
                crate::text::push_text(&mut message, name);
                crate::text::push_text(&mut message, "' has ");
                crate::text::push_text(&mut message, actual.as_str());
                let args = vec![text_arg("projector", p), text_arg("input", input), text_arg("name", name),
                    text_arg("expected", expected.as_str()), text_arg("actual", actual.as_str())];
                proof {
                    assert(crate::diagnostics::arguments_view(args@) =~= seq![("projector"@, ArgumentView::Text(p@)),
                        ("input"@, ArgumentView::Text(input@)), ("name"@, ArgumentView::Text(name@)),
                        ("expected"@, ArgumentView::Text(type_ref_text(t@))), ("actual"@, ArgumentView::Text(type_ref_text(pt@)))]);
                }
                report(diagnostics, crate::diagnostics::malformed_shape(), "diagnostic-schema-001-projection-reason-type", message, span, args);
            }
        },
    }
}

/// Lower an input's source, checking it against the selector and the input's type.
pub fn lower_input_source(
    file: &str,
    source_text: &[char],
    spans: &mut ManifestSpans,
    diagnostics: &mut Vec<Diagnostic>,
    schema: &ProjectSchema,
    p: &str,
    sel: &SchemaProjectionSelector,
    input: &str,
    t: &SchemaTypeRef,
    raw: RawProjectionInputSource,
) -> (r: SchemaProjectionInputSource)
    ensures
        reported(old(diagnostics)@, final(diagnostics)@, source_outcome(*schema, p@, selector_view(*sel), input@, t@, raw).0),
        source_view(r) == source_outcome(*schema, p@, selector_view(*sel), input@, t@, raw).1,
{
    let ghost start = diagnostics@;
    match raw {
        RawProjectionInputSource::EventKind => {
            proof {
                lemma_reported_none(start);
            }
            SchemaProjectionInputSource::EventKind
        },
        RawProjectionInputSource::CandidateLineId => {
            let span = spans.next_string_span(file, source_text, "candidate_line_id");
            check_candidate(diagnostics, p, input, sel, CandidateKind::Line, span);
            SchemaProjectionInputSource::CandidateLineId
        },
        RawProjectionInputSource::CandidateChoiceId => {
            let span = spans.next_string_span(file, source_text, "candidate_choice_id");
            check_candidate(diagnostics, p, input, sel, CandidateKind::Choice, span);
            SchemaProjectionInputSource::CandidateChoiceId
        },
        RawProjectionInputSource::CandidateEffectRequestId => {
            let span = spans.next_string_span(file, source_text, "candidate_effect_request_id");
            check_candidate(diagnostics, p, input, sel, CandidateKind::Effect, span);
            SchemaProjectionInputSource::CandidateEffectRequestId
        },
        RawProjectionInputSource::CandidateBlockId => {
            let span = spans.next_string_span(file, source_text, "candidate_block_id");
            check_candidate(diagnostics, p, input, sel, CandidateKind::Block, span);
            SchemaProjectionInputSource::CandidateBlockId
        },
        RawProjectionInputSource::CandidateProject => {
            let span = spans.next_string_span(file, source_text, "candidate_project");
            check_candidate(diagnostics, p, input, sel, CandidateKind::Project, span);
            SchemaProjectionInputSource::CandidateProject
        },
        RawProjectionInputSource::CandidateMetadata { key, occurrence } => {
            let ghost occ = occurrence;
            let key_span = spans.next_string_span(file, source_text, key.as_str());
            let o = lower_occurrence(diagnostics, p, input, occurrence, key_span.copy());
            let ghost m1 = diagnostics@;
            validate_candidate_metadata_source(diagnostics, schema, p, input, sel, key.as_str(), o, t, key_span);
            proof {
                lemma_reported_trans(start, m1, diagnostics@, occurrence_problems(p@, input@, occ),
                    candidate_metadata_problems(*schema, p@, input@, selector_view(*sel), key@, o, t@));
            }
            SchemaProjectionInputSource::CandidateMetadata { key, occurrence: o }
        },
        RawProjectionInputSource::AvailabilityReasonArg { name } => {
            let span = spans.next_string_span(file, source_text, name.as_str());
            validate_availability_reason_arg_source(diagnostics, schema, p, input, sel, name.as_str(), t, span);
            SchemaProjectionInputSource::AvailabilityReasonArg { name }
        },
        RawProjectionInputSource::Literal { value } => {
            let span = spans.next_string_span(file, source_text, "literal");
            let mut owner = crate::text::concat3("projector '", p, "' input '");
            crate::text::push_text(&mut owner, input);
            crate::text::push_text(&mut owner, "'");
            proof {
                assert(owner@ =~= input_owner(p@, input@));
            }
            let literal = lower_literal_for_type(diagnostics, schema, owner.as_str(), t, value, span);
            SchemaProjectionInputSource::Literal(literal)
        },
    }
}

/// The problem of an input type reference that does not parse.
pub open spec fn input_type_problem(p: Seq<char>, input: Seq<char>, value: Seq<char>) -> Problem {
    problem_with(
        "RECITE_SCHEMA004"@,
        "diagnostic-schema-004-invalid-projection-input-type"@,
        "projector '"@ + p + "' input '"@ + input + "' has invalid type reference '"@ + value + "'"@,
        seq![("projector"@, ArgumentView::Text(p)), ("input"@, ArgumentView::Text(input)), ("type_ref"@, ArgumentView::Text(value))],
    )
}

/// The names of a raw input list.
pub open spec fn input_names(rs: Seq<RawProjectionInput>) -> Seq<Seq<char>> {
    rs.map_values(|r: RawProjectionInput| r.name@)
}

/// The problems of input `i`.
pub open spec fn input_problems(schema: ProjectSchema, p: Seq<char>, sel: SelectorView, rs: Seq<RawProjectionInput>, i: int) -> Seq<Problem> {
    let r = rs[i];
    let n = r.name@;
    (if !spec_is_manifest_name(n) { seq![problem_of(invalid_name_view("projection input name"@, arbitrary()))] } else { Seq::empty() })
        + (if input_names(rs).take(i).contains(n) {
            seq![problem_with(
                "RECITE_SCHEMA003"@,
                "diagnostic-schema-003-projection-input"@,
                "projector '"@ + p + "' repeats input '"@ + n + "'"@,
                seq![("projector"@, ArgumentView::Text(p)), ("input"@, ArgumentView::Text(n))],
            )]
        } else {
            Seq::empty()
        }) + (if type_ref_at(r.type_ref@, 0) is Some { Seq::empty() } else { seq![input_type_problem(p, n, r.type_ref@)] })
        + source_outcome(schema, p, sel, n, lowered_type(r.type_ref@), r.source).0
}

/// The problems of the first `n` inputs.
pub open spec fn inputs_problems(schema: ProjectSchema, p: Seq<char>, sel: SelectorView, rs: Seq<RawProjectionInput>, n: int) -> Seq<Problem>
    decreases n,
{
    if n <= 0 {
        Seq::empty()
    } else {
        inputs_problems(schema, p, sel, rs, n - 1) + input_problems(schema, p, sel, rs, n - 1)
    }
}

/// The pending type references of the first `n` inputs.
pub open spec fn inputs_pending(p: Seq<char>, rs: Seq<RawProjectionInput>, n: int) -> Seq<(Seq<char>, TypeRefView)>
    decreases n,
{
    if n <= 0 {
        Seq::empty()
    } else {
        inputs_pending(p, rs, n - 1) + match type_ref_at(rs[n - 1].type_ref@, 0) {
            Some(t) => seq![(input_owner(p, rs[n - 1].name@), t)],
            None => Seq::empty(),
        }
    }
}

/// The input a raw input lowers to.
pub open spec fn input_lowered(x: ProjectionInput, schema: ProjectSchema, p: Seq<char>, sel: SelectorView, r: RawProjectionInput) -> bool {
    &&& x.name@ == r.name@
    &&& x.type_ref@ == lowered_type(r.type_ref@)
    &&& x.required == r.required
    &&& source_view(x.source) == source_outcome(schema, p, sel, r.name@, lowered_type(r.type_ref@), r.source).1
}

/// Lower a projector's inputs: every input is kept, with its type and source.
pub fn lower_inputs(
    file: &str,
    source: &[char],
    spans: &mut ManifestSpans,
    diagnostics: &mut Vec<Diagnostic>,
    schema: &ProjectSchema,
    p: &str,
    sel: &SchemaProjectionSelector,
    raw_inputs: Vec<RawProjectionInput>,
    pending_type_refs: &mut Vec<PendingTypeReference>,
) -> (r: Vec<ProjectionInput>)
    ensures
        reported(old(diagnostics)@, final(diagnostics)@, inputs_problems(*schema, p@, selector_view(*sel), raw_inputs@, raw_inputs@.len() as int)),
        pending_added(old(pending_type_refs)@, final(pending_type_refs)@, inputs_pending(p@, raw_inputs@, raw_inputs@.len() as int)),
        r@.len() == raw_inputs@.len(),
        forall|i: int| 0 <= i < raw_inputs@.len() ==> #[trigger] input_lowered(r@[i], *schema, p@, selector_view(*sel), raw_inputs@[i]),
{
    let ghost rs = raw_inputs@;
    let ghost names = input_names(rs);
    let ghost selv = selector_view(*sel);
    let ghost start = diagnostics@;
    let ghost pstart = pending_type_refs@;
    let mut raw_inputs = raw_inputs;
    let mut out: Vec<ProjectionInput> = Vec::new();
    let mut seen = StrSet::new();
    let mut i: usize = 0;
    let total = raw_inputs.len();
    proof {
        lemma_reported_none(start);
        assert(pending_type_refs@.subrange(0, pstart.len() as int) =~= pstart);
        assert(pending_views(pending_type_refs@.subrange(pstart.len() as int, pstart.len() as int)) =~= Seq::<(Seq<char>, TypeRefView)>::empty());
        assert(rs.subrange(0, rs.len() as int) =~= rs);
    }
    while raw_inputs.len() > 0
        invariant
            total == rs.len(),
            names == input_names(rs),
            selv == selector_view(*sel),
            i <= rs.len(),
            raw_inputs@ == rs.subrange(i as int, rs.len() as int),
            out@.len() == i,
            forall|j: int| 0 <= j < i ==> #[trigger] input_lowered(out@[j], *schema, p@, selv, rs[j]),
            forall|n: Seq<char>| #[trigger] seen.elem_set().contains(n) <==> names.take(i as int).contains(n),
            reported(start, diagnostics@, inputs_problems(*schema, p@, selv, rs, i as int)),
            pending_added(pstart, pending_type_refs@, inputs_pending(p@, rs, i as int)),
        decreases raw_inputs@.len(),
    {
        let raw = raw_inputs.remove(0);
        let ghost mid = diagnostics@;
        let ghost pmid = pending_type_refs@;
        proof {
            assert(raw == rs[i as int]);
            assert(raw_inputs@ =~= rs.subrange(i + 1, rs.len() as int));
            assert(names[i as int] == raw.name@);
            assert(names.take(i + 1) =~= names.take(i as int).push(raw.name@));
        }
        let RawProjectionInput { name, source: raw_source, type_ref: raw_type, required } = raw;
        let name_span = spans.next_string_span(file, source, name.as_str());
        let dup_span = name_span.copy();
        validate_manifest_name(diagnostics, "projection input name", name.as_str(), name_span);
        let ghost m1 = diagnostics@;
        let ghost p0 = if !spec_is_manifest_name(name@) { seq![problem_of(invalid_name_view("projection input name"@, arbitrary()))] } else { Seq::<Problem>::empty() };
        proof {
            lemma_reported_none(mid);
            if !spec_is_manifest_name(name@) {
                lemma_reported_push(mid, mid, Seq::empty(), m1.last(), p0[0]);
                assert(m1 =~= mid.push(m1.last()));
                assert(Seq::<Problem>::empty().push(p0[0]) =~= p0);
            } else {
                assert(m1 =~= mid);
            }
        }
        let ghost seen_before = seen;
        proof {
            assert(seen_before.elem_set().contains(name@) == seen_before.elems().contains(name@));
        }
        let fresh = seen.insert(crate::text::copy_string(&name));
        proof {
            assert forall|n: Seq<char>| #[trigger] seen.elem_set().contains(n) <==> names.take(i + 1).contains(n) by {
                lemma_push_contains_seq_pub(names.take(i as int), name@, n);
            }
        }
        let ghost p1 = if !fresh {
            seq![problem_with(
                "RECITE_SCHEMA003"@,
                "diagnostic-schema-003-projection-input"@,
                "projector '"@ + p@ + "' repeats input '"@ + name@ + "'"@,
                seq![("projector"@, ArgumentView::Text(p@)), ("input"@, ArgumentView::Text(name@))],
            )]
        } else {
            Seq::<Problem>::empty()
        };
        if !fresh {
            let mut message = crate::text::concat3("projector '", p, "' repeats input '");
            crate::text::push_text(&mut message, name.as_str());
            crate::text::push_text(&mut message, "'");
            let args = vec![text_arg("projector", p), text_arg("input", name.as_str())];
            proof {
                assert(crate::diagnostics::arguments_view(args@) =~= p1[0].arguments);
            }
            report(diagnostics, crate::diagnostics::duplicate_definition_code(), "diagnostic-schema-003-projection-input", message, dup_span, args);
        } else {
            proof {
                lemma_reported_none(m1);
            }
        }
        let ghost m2 = diagnostics@;
        let type_span = spans.next_string_span(file, source, raw_type.as_str());
        let mut message = crate::text::concat3("projector '", p, "' input '");
        crate::text::push_text(&mut message, name.as_str());
        crate::text::push_text(&mut message, "' has invalid type reference '");
        crate::text::push_text(&mut message, raw_type.as_str());
        crate::text::push_text(&mut message, "'");
        let ctx_exec = TypeReferenceContext::ProjectionInput { projector: String::from_str(p), input: crate::text::copy_string(&name) };
        let ghost ctxv = ctx_exec;
        let ghost msg = message@;
        proof {
            assert(msg =~= "projector '"@ + p@ + "' input '"@ + name@ + "' has invalid type reference '"@ + raw_type@ + "'"@);
        }
        let (t, t_span, t_valid) = lower_type_reference_with_context(diagnostics, raw_type.as_str(), type_span, message, ctx_exec);
        let ghost m3 = diagnostics@;
        let ghost p2 = if type_ref_at(raw_type@, 0) is Some { Seq::<Problem>::empty() } else { seq![input_type_problem(p@, name@, raw_type@)] };
        proof {
            if t_valid {
                lemma_reported_none(m2);
                assert(m3 == m2);
            } else {
                assert(invalid_type_problem(ctxv, raw_type@, msg).arguments =~= input_type_problem(p@, name@, raw_type@).arguments);
                assert(invalid_type_problem(ctxv, raw_type@, msg) == input_type_problem(p@, name@, raw_type@));
            }
        }
        let ghost p3 = pending_type_refs@;
        if t_valid {
            let mut powner = crate::text::concat3("projector '", p, "' input '");
            crate::text::push_text(&mut powner, name.as_str());
            crate::text::push_text(&mut powner, "'");
            pending_type_refs.push(PendingTypeReference { owner: powner, type_ref: t.copy(), span: t_span });
            proof {
                let added = pending_type_refs@.subrange(p3.len() as int, pending_type_refs@.len() as int);
                assert(added =~= seq![pending_type_refs@.last()]);
                assert(powner@ =~= input_owner(p@, name@));
                assert(pending_views(added) =~= seq![(input_owner(p@, name@), t@)]);
                assert(pending_type_refs@.subrange(0, p3.len() as int) =~= p3);
            }
        } else {
            proof {
                assert(pending_type_refs@.subrange(0, p3.len() as int) =~= p3);
                assert(pending_views(pending_type_refs@.subrange(p3.len() as int, p3.len() as int)) =~= Seq::<(Seq<char>, TypeRefView)>::empty());
            }
        }
        let lowered_source = lower_input_source(file, source, spans, diagnostics, schema, p, sel, name.as_str(), &t, raw_source);
        proof {
            let p4 = source_outcome(*schema, p@, selv, name@, lowered_type(raw_type@), rs[i as int].source).0;
            lemma_reported_trans(mid, m1, m2, p0, p1);
            lemma_reported_trans(mid, m2, m3, p0 + p1, p2);
            lemma_reported_trans(mid, m3, diagnostics@, p0 + p1 + p2, p4);
            assert(input_problems(*schema, p@, selv, rs, i as int) =~= p0 + p1 + p2 + p4);
            lemma_reported_trans(start, mid, diagnostics@, inputs_problems(*schema, p@, selv, rs, i as int), p0 + p1 + p2 + p4);
            let pp = match type_ref_at(rs[i as int].type_ref@, 0) {
                Some(tt) => seq![(input_owner(p@, rs[i as int].name@), tt)],
                None => Seq::<(Seq<char>, TypeRefView)>::empty(),
            };
            crate::manifest::lower::functions::lemma_pending_added_trans(pstart, pmid, pending_type_refs@, inputs_pending(p@, rs, i as int), pp);
        }
        let ghost out_before = out@;
        out.push(ProjectionInput { name, source: lowered_source, type_ref: t, required });
        proof {
            assert forall|j: int| 0 <= j < i + 1 implies #[trigger] input_lowered(out@[j], *schema, p@, selv, rs[j]) by {
                if j < i {
                    assert(out@[j] == out_before[j]);
                }
            }
        }
        i = i + 1;
    }
    out
}

} // verus!
