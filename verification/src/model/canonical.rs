//! The canonical byte encoding of a schema, hashed into its fingerprint.
//!
//! Every string is written as its UTF-8 byte length (8 bytes, little endian)
//! followed by its UTF-8 bytes; every collection is written in its stored
//! (sorted) order after its length. Producer provenance is not encoded.
use vstd::prelude::*;
use vstd::utf8::encode_utf8;
use crate::collections::{StrMap, StrSet};
use crate::model::fingerprint::{blake3_content_fingerprint, canonical_blake3_fingerprint, ContentFingerprint};
use crate::model::{
    AvailabilityReasonArgBinding, AvailabilityReasonDefinition, ConditionAvailabilityReasonMapping,
    ConditionDefinition, ConditionReturnType, EffectDefinition, EffectMode, EffectModeSet,
    MarkupDefinition, MetadataContextSelector, MetadataDefinition, MetadataDomainDefinition,
    MetadataOccurrence, MetadataTarget, MetadataTargetSet, MissingMetadataContextPolicy,
    ParameterDefinition, PresentationAffordanceFieldDefinition, PresentationAffordanceFieldSource,
    PresentationAffordanceOutputDefinition, PresentationLabelArgDefinition,
    PresentationLabelDefinition, ProjectSchema, ProjectionInput, ProjectionInputRef,
    ProjectionOutputTarget, ProjectionQueryDefinition, ProjectionQueryFunctionDefinition,
    RegistryDefinition, SchemaLiteralValue, SchemaPresentationProjectorDefinition,
    SchemaProjectionInputSource, SchemaProjectionSelector, SchemaTypeDefinition, SpeakerDefinition,
    TypeRefView,
};

verus! {

// ---------------------------------------------------------------------------
// Primitive encodings
// ---------------------------------------------------------------------------

/// Concatenation of `f` applied to each element, in order.
pub open spec fn concat_map<T>(s: Seq<T>, f: spec_fn(T) -> Seq<u8>) -> Seq<u8>
    decreases s.len(),
{
    if s.len() == 0 {
        Seq::empty()
    } else {
        concat_map(s.drop_last(), f) + f(s.last())
    }
}

proof fn lemma_concat_map_step<T>(s: Seq<T>, i: int, f: spec_fn(T) -> Seq<u8>)
    requires
        0 <= i < s.len(),
    ensures
        concat_map(s.take(i + 1), f) == concat_map(s.take(i), f) + f(s[i]),
{
    assert(s.take(i + 1).drop_last() =~= s.take(i));
}

proof fn lemma_concat_map_all<T>(s: Seq<T>, f: spec_fn(T) -> Seq<u8>)
    ensures
        concat_map(s.take(s.len() as int), f) == concat_map(s, f),
        concat_map(s.take(0), f) == Seq::<u8>::empty(),
{
    assert(s.take(s.len() as int) =~= s);
}

/// Little-endian bytes of a `u64`.
#[verifier::opaque]
pub open spec fn u64_bytes(v: u64) -> Seq<u8> {
    seq![
        (v % 0x100) as u8,
        ((v / 0x100) % 0x100) as u8,
        ((v / 0x1_0000) % 0x100) as u8,
        ((v / 0x100_0000) % 0x100) as u8,
        ((v / 0x1_0000_0000) % 0x100) as u8,
        ((v / 0x100_0000_0000) % 0x100) as u8,
        ((v / 0x1_0000_0000_0000) % 0x100) as u8,
        ((v / 0x100_0000_0000_0000) % 0x100) as u8,
    ]
}

/// Little-endian bytes of a `u32`.
#[verifier::opaque]
pub open spec fn u32_bytes(v: u32) -> Seq<u8> {
    seq![
        (v % 0x100) as u8,
        ((v / 0x100) % 0x100) as u8,
        ((v / 0x1_0000) % 0x100) as u8,
        ((v / 0x100_0000) % 0x100) as u8,
    ]
}

/// A length, as a little-endian `u64`.
#[verifier::opaque]
pub open spec fn len_bytes(n: nat) -> Seq<u8> {
    u64_bytes(n as u64)
}

/// A string: its UTF-8 length, then its UTF-8 bytes.
#[verifier::opaque]
pub open spec fn str_bytes(s: Seq<char>) -> Seq<u8> {
    len_bytes(encode_utf8(s).len()) + encode_utf8(s)
}

/// The encoding header.
pub open spec fn header_bytes() -> Seq<u8> {
    encode_utf8("recite-schema-fingerprint-v1\0"@)
}

#[verifier::opaque]
pub open spec fn section_bytes(name: Seq<char>, len: nat) -> Seq<u8> {
    str_bytes("section"@) + str_bytes(name) + len_bytes(len)
}

#[verifier::opaque]
pub open spec fn entry_bytes(key: Seq<char>) -> Seq<u8> {
    str_bytes("entry"@) + str_bytes(key)
}

#[verifier::opaque]
pub open spec fn field_bytes(name: Seq<char>) -> Seq<u8> {
    str_bytes("field"@) + str_bytes(name)
}

#[verifier::opaque]
pub open spec fn bool_bytes(b: bool) -> Seq<u8> {
    str_bytes(if b { "true"@ } else { "false"@ })
}

#[verifier::opaque]
pub open spec fn field_bool_bytes(name: Seq<char>, b: bool) -> Seq<u8> {
    field_bytes(name) + bool_bytes(b)
}

#[verifier::opaque]
pub open spec fn field_u32_bytes(name: Seq<char>, v: u32) -> Seq<u8> {
    field_bytes(name) + u32_bytes(v)
}

#[verifier::opaque]
pub open spec fn field_string_bytes(name: Seq<char>, value: Seq<char>) -> Seq<u8> {
    field_bytes(name) + str_bytes(value)
}

#[verifier::opaque]
pub open spec fn option_string_bytes(value: Option<Seq<char>>) -> Seq<u8> {
    match value {
        Some(v) => str_bytes("some"@) + str_bytes(v),
        None => str_bytes("none"@),
    }
}

#[verifier::opaque]
pub open spec fn field_option_string_bytes(name: Seq<char>, value: Option<Seq<char>>) -> Seq<u8> {
    field_bytes(name) + option_string_bytes(value)
}

/// Character view of an optional string.
pub open spec fn opt_text(o: Option<String>) -> Option<Seq<char>> {
    match o {
        Some(s) => Some(s@),
        None => None,
    }
}

pub open spec fn chars_item() -> spec_fn(Seq<char>) -> Seq<u8> {
    |c: Seq<char>| str_bytes(c)
}

pub open spec fn string_item() -> spec_fn(String) -> Seq<u8> {
    |s: String| str_bytes(s@)
}

#[verifier::opaque]
pub open spec fn string_set_bytes(name: Seq<char>, set: StrSet) -> Seq<u8> {
    field_bytes(name) + len_bytes(set.elems().len()) + concat_map(set.elems(), chars_item())
}

// ---------------------------------------------------------------------------
// Names of enumerations
// ---------------------------------------------------------------------------

pub open spec fn effect_mode_text(mode: EffectMode) -> Seq<char> {
    match mode {
        EffectMode::Deferred => "deferred"@,
        EffectMode::Immediate => "immediate"@,
        EffectMode::Blocking => "blocking"@,
    }
}

pub open spec fn metadata_target_text(target: MetadataTarget) -> Seq<char> {
    match target {
        MetadataTarget::Block => "block"@,
        MetadataTarget::Choice => "choice"@,
        MetadataTarget::Line => "line"@,
        MetadataTarget::Project => "project"@,
    }
}

pub open spec fn effect_mode_item() -> spec_fn(EffectMode) -> Seq<u8> {
    |m: EffectMode| str_bytes(effect_mode_text(m))
}

pub open spec fn metadata_target_item() -> spec_fn(MetadataTarget) -> Seq<u8> {
    |t: MetadataTarget| str_bytes(metadata_target_text(t))
}

#[verifier::opaque]
pub open spec fn effect_modes_bytes(name: Seq<char>, modes: EffectModeSet) -> Seq<u8> {
    field_bytes(name) + len_bytes(modes.members().len()) + concat_map(
        modes.members(),
        effect_mode_item(),
    )
}

#[verifier::opaque]
pub open spec fn metadata_targets_bytes(name: Seq<char>, targets: MetadataTargetSet) -> Seq<u8> {
    field_bytes(name) + len_bytes(targets.members().len()) + concat_map(
        targets.members(),
        metadata_target_item(),
    )
}

// ---------------------------------------------------------------------------
// Type references, literals and small enumerations
// ---------------------------------------------------------------------------

pub open spec fn type_ref_bytes(t: TypeRefView) -> Seq<u8>
    decreases t,
{
    match t {
        TypeRefView::String => str_bytes("string"@),
        TypeRefView::Symbol => str_bytes("symbol"@),
        TypeRefView::Int => str_bytes("int"@),
        TypeRefView::Float => str_bytes("float"@),
        TypeRefView::Bool => str_bytes("bool"@),
        TypeRefView::Speaker => str_bytes("speaker"@),
        TypeRefView::Enum(n) => str_bytes("enum"@) + str_bytes(n),
        TypeRefView::Registry(n) => str_bytes("registry"@) + str_bytes(n),
        TypeRefView::Array(inner) => str_bytes("array"@) + type_ref_bytes(*inner),
    }
}

#[verifier::opaque]
pub open spec fn literal_bytes(v: SchemaLiteralValue) -> Seq<u8> {
    match v {
        SchemaLiteralValue::String(s) => str_bytes("string"@) + str_bytes(s@),
        SchemaLiteralValue::Int(i) => str_bytes("int"@) + u64_bytes(i as u64),
        SchemaLiteralValue::Float(s) => str_bytes("float"@) + str_bytes(s@),
        SchemaLiteralValue::Bool(b) => str_bytes("bool"@) + bool_bytes(b),
    }
}

pub open spec fn param_bytes(p: ParameterDefinition) -> Seq<u8> {
    entry_bytes(p.name@) + field_bytes("type"@) + type_ref_bytes(p.type_ref@)
}

pub open spec fn param_item() -> spec_fn(ParameterDefinition) -> Seq<u8> {
    |p: ParameterDefinition| param_bytes(p)
}

#[verifier::opaque]
pub open spec fn params_bytes(name: Seq<char>, params: Seq<ParameterDefinition>) -> Seq<u8> {
    field_bytes(name) + len_bytes(params.len()) + concat_map(params, param_item())
}

#[verifier::opaque]
pub open spec fn arg_binding_bytes(b: AvailabilityReasonArgBinding) -> Seq<u8> {
    match b {
        AvailabilityReasonArgBinding::ConditionParam(n) => str_bytes("condition_param"@) + str_bytes(n@),
        AvailabilityReasonArgBinding::Literal(v) => str_bytes("literal"@) + literal_bytes(v),
    }
}

pub open spec fn arg_binding_item() -> spec_fn((String, AvailabilityReasonArgBinding)) -> Seq<u8> {
    |e: (String, AvailabilityReasonArgBinding)| entry_bytes(e.0@) + arg_binding_bytes(e.1)
}

#[verifier::opaque]
pub open spec fn reason_mapping_bytes(m: Option<ConditionAvailabilityReasonMapping>) -> Seq<u8> {
    match m {
        Some(m) => str_bytes("some"@) + field_string_bytes("reason"@, m.reason.text()) + field_bytes(
            "args"@,
        ) + len_bytes(m.args.entry_seq().len()) + concat_map(m.args.entry_seq(), arg_binding_item()),
        None => str_bytes("none"@),
    }
}

#[verifier::opaque]
pub open spec fn context_selector_bytes(s: MetadataContextSelector) -> Seq<u8> {
    match s {
        MetadataContextSelector::FieldSpeaker => str_bytes("field:speaker"@),
        MetadataContextSelector::MetadataKey(k) => str_bytes("metadata"@) + str_bytes(k@),
    }
}

#[verifier::opaque]
pub open spec fn missing_policy_bytes(p: MissingMetadataContextPolicy) -> Seq<u8> {
    match p {
        MissingMetadataContextPolicy::Diagnostic => str_bytes("diagnostic"@),
        MissingMetadataContextPolicy::Empty => str_bytes("empty"@),
        MissingMetadataContextPolicy::Fallback { domain } => str_bytes("fallback"@) + str_bytes(
            domain@,
        ),
    }
}

#[verifier::opaque]
pub open spec fn occurrence_bytes(o: MetadataOccurrence) -> Seq<u8> {
    match o {
        MetadataOccurrence::Only => str_bytes("only"@),
        MetadataOccurrence::First => str_bytes("first"@),
        MetadataOccurrence::Last => str_bytes("last"@),
        MetadataOccurrence::Index(i) => str_bytes("index"@) + u32_bytes(i),
        MetadataOccurrence::All => str_bytes("all"@),
    }
}

#[verifier::opaque]
pub open spec fn projection_selector_bytes(s: SchemaProjectionSelector) -> Seq<u8> {
    match s {
        SchemaProjectionSelector::RuntimeEvent { kind } => str_bytes("runtime_event"@) + str_bytes(
            kind@,
        ),
        SchemaProjectionSelector::MetadataKey { target, key } => str_bytes("metadata_key"@)
            + str_bytes(metadata_target_text(target)) + str_bytes(key@),
        SchemaProjectionSelector::MetadataSet { target, required_keys } => str_bytes(
            "metadata_set"@,
        ) + str_bytes(metadata_target_text(target)) + len_bytes(required_keys@.len()) + concat_map(
            required_keys@,
            string_item(),
        ),
        SchemaProjectionSelector::AvailabilityReason { reason_id } => str_bytes(
            "availability_reason"@,
        ) + str_bytes(reason_id.text()),
    }
}

#[verifier::opaque]
pub open spec fn input_source_bytes(s: SchemaProjectionInputSource) -> Seq<u8> {
    match s {
        SchemaProjectionInputSource::EventKind => str_bytes("event_kind"@),
        SchemaProjectionInputSource::CandidateLineId => str_bytes("candidate_line_id"@),
        SchemaProjectionInputSource::CandidateChoiceId => str_bytes("candidate_choice_id"@),
        SchemaProjectionInputSource::CandidateEffectRequestId => str_bytes(
            "candidate_effect_request_id"@,
        ),
        SchemaProjectionInputSource::CandidateBlockId => str_bytes("candidate_block_id"@),
        SchemaProjectionInputSource::CandidateProject => str_bytes("candidate_project"@),
        SchemaProjectionInputSource::CandidateMetadata { key, occurrence } => str_bytes(
            "candidate_metadata"@,
        ) + str_bytes(key@) + occurrence_bytes(occurrence),
        SchemaProjectionInputSource::AvailabilityReasonArg { name } => str_bytes(
            "availability_reason_arg"@,
        ) + str_bytes(name@),
        SchemaProjectionInputSource::Literal(v) => str_bytes("literal"@) + literal_bytes(v),
    }
}

#[verifier::opaque]
pub open spec fn input_ref_bytes(r: ProjectionInputRef) -> Seq<u8> {
    match r {
        ProjectionInputRef::Input { name } => str_bytes("input"@) + str_bytes(name@),
        ProjectionInputRef::QueryResult { name } => str_bytes("query_result"@) + str_bytes(name@),
    }
}

pub open spec fn input_ref_item() -> spec_fn(ProjectionInputRef) -> Seq<u8> {
    |r: ProjectionInputRef| input_ref_bytes(r)
}

#[verifier::opaque]
pub open spec fn field_source_bytes(s: PresentationAffordanceFieldSource) -> Seq<u8> {
    match s {
        PresentationAffordanceFieldSource::Input { name } => str_bytes("input"@) + str_bytes(name@),
        PresentationAffordanceFieldSource::QueryResult { name } => str_bytes("query_result"@)
            + str_bytes(name@),
        PresentationAffordanceFieldSource::Literal(v) => str_bytes("literal"@) + literal_bytes(v),
    }
}

#[verifier::opaque]
pub open spec fn output_target_bytes(t: ProjectionOutputTarget) -> Seq<u8> {
    match t {
        ProjectionOutputTarget::Candidate => str_bytes("candidate"@),
        ProjectionOutputTarget::Event => str_bytes("event"@),
        ProjectionOutputTarget::Prompt => str_bytes("prompt"@),
    }
}

// ---------------------------------------------------------------------------
// Sections
// ---------------------------------------------------------------------------

pub open spec fn type_entry_item() -> spec_fn((String, SchemaTypeDefinition)) -> Seq<u8> {
    |e: (String, SchemaTypeDefinition)|
        entry_bytes(e.0@) + match e.1 {
            SchemaTypeDefinition::Enum(d) => field_string_bytes("kind"@, "enum"@) + string_set_bytes(
                "values"@,
                d.values,
            ),
        }
}

pub open spec fn registry_entry_item() -> spec_fn((String, RegistryDefinition)) -> Seq<u8> {
    |e: (String, RegistryDefinition)| entry_bytes(e.0@) + string_set_bytes("values"@, e.1.values)
}

pub open spec fn speaker_entry_item() -> spec_fn((String, SpeakerDefinition)) -> Seq<u8> {
    |e: (String, SpeakerDefinition)|
        entry_bytes(e.0@) + field_option_string_bytes("display_name"@, opt_text(e.1.display_name))
}

#[verifier::opaque]
pub open spec fn condition_returns_bytes(r: ConditionReturnType) -> Seq<u8> {
    match r {
        ConditionReturnType::Bool => str_bytes("bool"@),
        ConditionReturnType::Enum(n) => str_bytes("enum"@) + str_bytes(n@),
    }
}

pub open spec fn condition_entry_item() -> spec_fn((String, ConditionDefinition)) -> Seq<u8> {
    |e: (String, ConditionDefinition)|
        entry_bytes(e.0@) + params_bytes("params"@, e.1.params@) + field_bytes("returns"@)
            + condition_returns_bytes(e.1.returns) + field_bytes("availability_reason"@)
            + reason_mapping_bytes(e.1.availability_reason)
}

pub open spec fn reason_entry_item() -> spec_fn((String, AvailabilityReasonDefinition)) -> Seq<u8> {
    |e: (String, AvailabilityReasonDefinition)|
        entry_bytes(e.0@) + field_string_bytes("template"@, e.1.template@) + params_bytes(
            "params"@,
            e.1.params@,
        )
}

pub open spec fn effect_entry_item() -> spec_fn((String, EffectDefinition)) -> Seq<u8> {
    |e: (String, EffectDefinition)|
        entry_bytes(e.0@) + effect_modes_bytes("modes"@, e.1.modes) + params_bytes(
            "params"@,
            e.1.params@,
        )
}

pub open spec fn metadata_entry_item() -> spec_fn((String, MetadataDefinition)) -> Seq<u8> {
    |e: (String, MetadataDefinition)|
        entry_bytes(e.0@) + metadata_targets_bytes("targets"@, e.1.targets) + field_bytes("type"@)
            + type_ref_bytes(e.1.type_ref@) + field_bool_bytes("repeatable"@, e.1.repeatable)
            + field_option_string_bytes("domain"@, opt_text(e.1.domain))
}

pub open spec fn context_values_item() -> spec_fn((String, StrSet)) -> Seq<u8> {
    |e: (String, StrSet)| entry_bytes(e.0@) + string_set_bytes("values"@, e.1)
}

#[verifier::opaque]
pub open spec fn domain_bytes(d: MetadataDomainDefinition) -> Seq<u8> {
    match d {
        MetadataDomainDefinition::Flat(f) => field_string_bytes("kind"@, "flat"@) + string_set_bytes(
            "values"@,
            f.values,
        ),
        MetadataDomainDefinition::Contextual(c) => field_string_bytes("kind"@, "contextual"@)
            + field_bytes("selector"@) + context_selector_bytes(c.selector) + field_bytes(
            "values_by_context"@,
        ) + len_bytes(c.values_by_context.entry_seq().len()) + concat_map(
            c.values_by_context.entry_seq(),
            context_values_item(),
        ) + field_bytes("missing_context"@) + missing_policy_bytes(c.missing_context),
    }
}

pub open spec fn domain_entry_item() -> spec_fn((String, MetadataDomainDefinition)) -> Seq<u8> {
    |e: (String, MetadataDomainDefinition)| entry_bytes(e.0@) + domain_bytes(e.1)
}

#[verifier::opaque]
pub open spec fn max_calls_bytes(m: Option<u32>) -> Seq<u8> {
    match m {
        Some(v) => str_bytes("some"@) + u32_bytes(v),
        None => str_bytes("none"@),
    }
}

pub open spec fn query_function_entry_item() -> spec_fn(
    (String, ProjectionQueryFunctionDefinition),
) -> Seq<u8> {
    |e: (String, ProjectionQueryFunctionDefinition)|
        entry_bytes(e.0@) + params_bytes("params"@, e.1.params@) + field_bytes("returns"@)
            + type_ref_bytes(e.1.returns@) + field_bytes("max_calls_per_event"@) + max_calls_bytes(
            e.1.max_calls_per_event,
        )
}

pub open spec fn input_item() -> spec_fn(ProjectionInput) -> Seq<u8> {
    |i: ProjectionInput|
        entry_bytes(i.name@) + field_bytes("source"@) + input_source_bytes(i.source) + field_bytes(
            "type"@,
        ) + type_ref_bytes(i.type_ref@) + field_bool_bytes("required"@, i.required)
}

#[verifier::opaque]
pub open spec fn inputs_bytes(inputs: Seq<ProjectionInput>) -> Seq<u8> {
    field_bytes("inputs"@) + len_bytes(inputs.len()) + concat_map(inputs, input_item())
}

#[verifier::opaque]
pub open spec fn input_refs_bytes(name: Seq<char>, refs: Seq<ProjectionInputRef>) -> Seq<u8> {
    field_bytes(name) + len_bytes(refs.len()) + concat_map(refs, input_ref_item())
}

pub open spec fn query_entry_item() -> spec_fn((String, ProjectionQueryDefinition)) -> Seq<u8> {
    |e: (String, ProjectionQueryDefinition)|
        entry_bytes(e.0@) + field_string_bytes("function"@, e.1.function@) + input_refs_bytes(
            "args"@,
            e.1.args@,
        )
}

#[verifier::opaque]
pub open spec fn queries_bytes(m: StrMap<ProjectionQueryDefinition>) -> Seq<u8> {
    field_bytes("queries"@) + len_bytes(m.entry_seq().len()) + concat_map(
        m.entry_seq(),
        query_entry_item(),
    )
}

pub open spec fn label_arg_entry_item() -> spec_fn((String, PresentationLabelArgDefinition)) -> Seq<
    u8,
> {
    |e: (String, PresentationLabelArgDefinition)|
        entry_bytes(e.0@) + field_bytes("source"@) + input_ref_bytes(e.1.source) + field_bytes(
            "type"@,
        ) + type_ref_bytes(e.1.type_ref@)
}

#[verifier::opaque]
pub open spec fn label_bytes(l: PresentationLabelDefinition) -> Seq<u8> {
    field_string_bytes("template_id"@, l.template_id@) + field_string_bytes(
        "source_text"@,
        l.source_text@,
    ) + field_bytes("args"@) + len_bytes(l.args.entry_seq().len()) + concat_map(
        l.args.entry_seq(),
        label_arg_entry_item(),
    )
}

#[verifier::opaque]
pub open spec fn option_label_bytes(l: Option<PresentationLabelDefinition>) -> Seq<u8> {
    match l {
        Some(l) => str_bytes("some"@) + label_bytes(l),
        None => str_bytes("none"@),
    }
}

pub open spec fn output_field_entry_item() -> spec_fn(
    (String, PresentationAffordanceFieldDefinition),
) -> Seq<u8> {
    |e: (String, PresentationAffordanceFieldDefinition)|
        entry_bytes(e.0@) + field_bytes("source"@) + field_source_bytes(e.1.source) + field_bytes(
            "type"@,
        ) + type_ref_bytes(e.1.type_ref@)
}

#[verifier::opaque]
pub open spec fn output_bytes(o: PresentationAffordanceOutputDefinition) -> Seq<u8> {
    field_bytes("target"@) + output_target_bytes(o.target) + field_string_bytes("kind"@, o.kind@)
        + field_string_bytes("slot"@, o.slot@) + field_bytes("label"@) + option_label_bytes(o.label)
        + field_bytes("fields"@) + len_bytes(o.fields.entry_seq().len()) + concat_map(
        o.fields.entry_seq(),
        output_field_entry_item(),
    )
}

pub open spec fn output_entry_item() -> spec_fn((String, PresentationAffordanceOutputDefinition)) -> Seq<
    u8,
> {
    |e: (String, PresentationAffordanceOutputDefinition)| entry_bytes(e.0@) + output_bytes(e.1)
}

#[verifier::opaque]
pub open spec fn outputs_bytes(m: StrMap<PresentationAffordanceOutputDefinition>) -> Seq<u8> {
    field_bytes("outputs"@) + len_bytes(m.entry_seq().len()) + concat_map(
        m.entry_seq(),
        output_entry_item(),
    )
}

pub open spec fn projector_entry_item() -> spec_fn((String, SchemaPresentationProjectorDefinition)) -> Seq<
    u8,
> {
    |e: (String, SchemaPresentationProjectorDefinition)|
        entry_bytes(e.0@) + field_bytes("candidates"@) + projection_selector_bytes(e.1.candidates)
            + inputs_bytes(e.1.inputs@) + queries_bytes(e.1.queries) + outputs_bytes(e.1.outputs)
}

pub open spec fn markup_entry_item() -> spec_fn((String, MarkupDefinition)) -> Seq<u8> {
    |e: (String, MarkupDefinition)|
        entry_bytes(e.0@) + field_bool_bytes("requires_closing"@, e.1.requires_closing)
            + field_bool_bytes("translatable"@, e.1.translatable) + field_bool_bytes(
            "allows_nesting"@,
            e.1.allows_nesting,
        )
}

/// A section: its name and length, then each entry in key order.
pub open spec fn map_section_bytes<V>(
    name: Seq<char>,
    m: StrMap<V>,
    f: spec_fn((String, V)) -> Seq<u8>,
) -> Seq<u8> {
    section_bytes(name, m.entry_seq().len()) + concat_map(m.entry_seq(), f)
}

/// The canonical encoding of a schema.
pub open spec fn schema_bytes(s: ProjectSchema) -> Seq<u8> {
    header_bytes() + field_u32_bytes("schema_version"@, s.schema_version) + map_section_bytes(
        "types"@,
        s.types,
        type_entry_item(),
    ) + map_section_bytes("registries"@, s.registries, registry_entry_item()) + map_section_bytes(
        "speakers"@,
        s.speakers,
        speaker_entry_item(),
    ) + map_section_bytes("conditions"@, s.conditions, condition_entry_item())
        + map_section_bytes("availability_reasons"@, s.availability_reasons, reason_entry_item())
        + map_section_bytes("effects"@, s.effects, effect_entry_item()) + map_section_bytes(
        "metadata_domains"@,
        s.metadata_domains,
        domain_entry_item(),
    ) + map_section_bytes("metadata"@, s.metadata, metadata_entry_item()) + map_section_bytes(
        "projection_queries"@,
        s.projection_queries,
        query_function_entry_item(),
    ) + map_section_bytes(
        "presentation_projectors"@,
        s.presentation_projectors,
        projector_entry_item(),
    ) + map_section_bytes("markup"@, s.markup, markup_entry_item())
}

// ---------------------------------------------------------------------------
// Provenance does not reach the encoding
// ---------------------------------------------------------------------------

/// Two registry maps list the same names in the same order, each with the
/// same values; origins, value origins and fingerprints may differ.
pub open spec fn registries_agree(a: StrMap<RegistryDefinition>, b: StrMap<RegistryDefinition>) -> bool {
    &&& a.entry_seq().len() == b.entry_seq().len()
    &&& forall|i: int|
        0 <= i < a.entry_seq().len() ==> {
            &&& (#[trigger] a.entry_seq()[i]).0 == b.entry_seq()[i].0
            &&& a.entry_seq()[i].1.values == b.entry_seq()[i].1.values
        }
}

/// Two availability reason maps list the same ids in the same order, each
/// with the same template and parameters; origins may differ.
pub open spec fn reasons_agree(
    a: StrMap<AvailabilityReasonDefinition>,
    b: StrMap<AvailabilityReasonDefinition>,
) -> bool {
    &&& a.entry_seq().len() == b.entry_seq().len()
    &&& forall|i: int|
        0 <= i < a.entry_seq().len() ==> {
            &&& (#[trigger] a.entry_seq()[i]).0 == b.entry_seq()[i].0
            &&& a.entry_seq()[i].1.template == b.entry_seq()[i].1.template
            &&& a.entry_seq()[i].1.params == b.entry_seq()[i].1.params
        }
}

/// Two metadata domains agree in everything but their provenance.
pub open spec fn domain_content_agrees(a: MetadataDomainDefinition, b: MetadataDomainDefinition) -> bool {
    match (a, b) {
        (MetadataDomainDefinition::Flat(x), MetadataDomainDefinition::Flat(y)) => x.values == y.values,
        (MetadataDomainDefinition::Contextual(x), MetadataDomainDefinition::Contextual(y)) => {
            &&& x.selector == y.selector
            &&& x.values_by_context == y.values_by_context
            &&& x.missing_context == y.missing_context
        },
        _ => false,
    }
}

/// Two domain maps list the same names in the same order, each agreeing in
/// everything but provenance.
pub open spec fn domains_agree(
    a: StrMap<MetadataDomainDefinition>,
    b: StrMap<MetadataDomainDefinition>,
) -> bool {
    &&& a.entry_seq().len() == b.entry_seq().len()
    &&& forall|i: int|
        0 <= i < a.entry_seq().len() ==> {
            &&& (#[trigger] a.entry_seq()[i]).0 == b.entry_seq()[i].0
            &&& domain_content_agrees(a.entry_seq()[i].1, b.entry_seq()[i].1)
        }
}

/// `a` and `b` differ at most in producer provenance: registry origins, value
/// origins and fingerprints, availability reason origins, metadata domain
/// provenance, and the producer metadata.
pub open spec fn same_content(a: ProjectSchema, b: ProjectSchema) -> bool {
    &&& a.schema_version == b.schema_version
    &&& a.types == b.types
    &&& registries_agree(a.registries, b.registries)
    &&& a.speakers == b.speakers
    &&& a.conditions == b.conditions
    &&& reasons_agree(a.availability_reasons, b.availability_reasons)
    &&& a.effects == b.effects
    &&& domains_agree(a.metadata_domains, b.metadata_domains)
    &&& a.metadata == b.metadata
    &&& a.projection_queries == b.projection_queries
    &&& a.presentation_projectors == b.presentation_projectors
    &&& a.markup == b.markup
}

proof fn lemma_concat_map_pointwise<T>(s: Seq<T>, t: Seq<T>, f: spec_fn(T) -> Seq<u8>)
    requires
        s.len() == t.len(),
        forall|i: int| 0 <= i < s.len() ==> f(#[trigger] s[i]) == f(t[i]),
    ensures
        concat_map(s, f) == concat_map(t, f),
    decreases s.len(),
{
    if s.len() > 0 {
        assert forall|i: int| 0 <= i < s.drop_last().len() implies f(
            #[trigger] s.drop_last()[i],
        ) == f(t.drop_last()[i]) by {
            assert(s.drop_last()[i] == s[i]);
            assert(f(s[i]) == f(t[i]));
        }
        lemma_concat_map_pointwise(s.drop_last(), t.drop_last(), f);
        assert(f(s[s.len() - 1]) == f(t[t.len() - 1]));
    }
}

/// Provenance is not part of the content fingerprint: two schemas that differ
/// only in producer provenance and producer metadata have the same canonical
/// encoding, and so the same content fingerprint.
pub proof fn lemma_content_ignores_provenance(a: ProjectSchema, b: ProjectSchema)
    requires
        same_content(a, b),
    ensures
        schema_bytes(a) == schema_bytes(b),
        blake3_content_fingerprint(schema_bytes(a)) == blake3_content_fingerprint(schema_bytes(b)),
{
    let ra = a.registries.entry_seq();
    let rb = b.registries.entry_seq();
    assert forall|i: int| 0 <= i < ra.len() implies registry_entry_item()(#[trigger] ra[i])
        == registry_entry_item()(rb[i]) by {
        assert(ra[i].0 == rb[i].0);
    }
    lemma_concat_map_pointwise(ra, rb, registry_entry_item());
    let qa = a.availability_reasons.entry_seq();
    let qb = b.availability_reasons.entry_seq();
    assert forall|i: int| 0 <= i < qa.len() implies reason_entry_item()(#[trigger] qa[i])
        == reason_entry_item()(qb[i]) by {
        assert(qa[i].0 == qb[i].0);
    }
    lemma_concat_map_pointwise(qa, qb, reason_entry_item());
    let da = a.metadata_domains.entry_seq();
    let db = b.metadata_domains.entry_seq();
    assert forall|i: int| 0 <= i < da.len() implies domain_entry_item()(#[trigger] da[i])
        == domain_entry_item()(db[i]) by {
        assert(da[i].0 == db[i].0);
        reveal(domain_bytes);
        assert(domain_content_agrees(da[i].1, db[i].1));
        assert(domain_bytes(da[i].1) == domain_bytes(db[i].1));
    }
    lemma_concat_map_pointwise(da, db, domain_entry_item());
}


// ---------------------------------------------------------------------------
// The encoder
// ---------------------------------------------------------------------------

/// The canonical encoding of `schema`, hashed with BLAKE3.
pub fn compute_canonical_fingerprint(schema: &ProjectSchema) -> (r: ContentFingerprint)
    ensures
        r@ == blake3_content_fingerprint(schema_bytes(*schema)),
{
    let mut bytes = CanonicalSchemaBytes::new();
    bytes.field_u32("schema_version", schema.schema_version);
    bytes.types(&schema.types);
    bytes.registries(&schema.registries);
    bytes.speakers(&schema.speakers);
    bytes.conditions(&schema.conditions);
    bytes.availability_reasons(&schema.availability_reasons);
    bytes.effects(&schema.effects);
    bytes.metadata_domains(&schema.metadata_domains);
    bytes.metadata(&schema.metadata);
    bytes.projection_queries(&schema.projection_queries);
    bytes.presentation_projectors(&schema.presentation_projectors);
    bytes.markup(&schema.markup);
    assert(bytes.bytes@ =~= schema_bytes(*schema));
    canonical_blake3_fingerprint(bytes.as_bytes())
}

/// The canonical encoding of `schema`.
pub fn canonical_schema_bytes(schema: &ProjectSchema) -> (r: Vec<u8>)
    ensures
        r@ == schema_bytes(*schema),
{
    let mut bytes = CanonicalSchemaBytes::new();
    bytes.field_u32("schema_version", schema.schema_version);
    bytes.types(&schema.types);
    bytes.registries(&schema.registries);
    bytes.speakers(&schema.speakers);
    bytes.conditions(&schema.conditions);
    bytes.availability_reasons(&schema.availability_reasons);
    bytes.effects(&schema.effects);
    bytes.metadata_domains(&schema.metadata_domains);
    bytes.metadata(&schema.metadata);
    bytes.projection_queries(&schema.projection_queries);
    bytes.presentation_projectors(&schema.presentation_projectors);
    bytes.markup(&schema.markup);
    assert(bytes.bytes@ =~= schema_bytes(*schema));
    bytes.bytes
}

struct CanonicalSchemaBytes {
    bytes: Vec<u8>,
}

/// The members of an effect mode set, in order.
fn effect_mode_list(modes: &EffectModeSet) -> (r: Vec<EffectMode>)
    ensures
        r@ == modes.members(),
{
    let mut r: Vec<EffectMode> = Vec::new();
    if modes.deferred {
        r.push(EffectMode::Deferred);
    }
    if modes.immediate {
        r.push(EffectMode::Immediate);
    }
    if modes.blocking {
        r.push(EffectMode::Blocking);
    }
    assert(r@ =~= modes.members());
    r
}

/// The members of a metadata target set, in order.
fn metadata_target_list(targets: &MetadataTargetSet) -> (r: Vec<MetadataTarget>)
    ensures
        r@ == targets.members(),
{
    let mut r: Vec<MetadataTarget> = Vec::new();
    if targets.block {
        r.push(MetadataTarget::Block);
    }
    if targets.choice {
        r.push(MetadataTarget::Choice);
    }
    if targets.line {
        r.push(MetadataTarget::Line);
    }
    if targets.project {
        r.push(MetadataTarget::Project);
    }
    assert(r@ =~= targets.members());
    r
}

fn effect_mode_name(mode: EffectMode) -> (r: &'static str)
    ensures
        r@ == effect_mode_text(mode),
{
    match mode {
        EffectMode::Deferred => "deferred",
        EffectMode::Immediate => "immediate",
        EffectMode::Blocking => "blocking",
    }
}

fn metadata_target_name(target: MetadataTarget) -> (r: &'static str)
    ensures
        r@ == metadata_target_text(target),
{
    match target {
        MetadataTarget::Block => "block",
        MetadataTarget::Choice => "choice",
        MetadataTarget::Line => "line",
        MetadataTarget::Project => "project",
    }
}

impl CanonicalSchemaBytes {
    fn new() -> (r: Self)
        ensures
            r.bytes@ == header_bytes(),
    {
        let header = "recite-schema-fingerprint-v1\0";
        let mut r = CanonicalSchemaBytes { bytes: Vec::new() };
        r.extend(header.as_bytes());
        r
    }

    fn as_bytes(&self) -> (r: &[u8])
        ensures
            r@ == self.bytes@,
    {
        self.bytes.as_slice()
    }

    fn extend(&mut self, data: &[u8])
        ensures
            final(self).bytes@ == old(self).bytes@ + data@,
    {
        let ghost start = self.bytes@;
        let mut i: usize = 0;
        while i < data.len()
            invariant
                i <= data@.len(),
                self.bytes@ == start + data@.take(i as int),
            decreases data@.len() - i,
        {
            self.bytes.push(data[i]);
            i = i + 1;
            assert(self.bytes@ =~= start + data@.take(i as int));
        }
        assert(data@.take(i as int) =~= data@);
    }

    fn u64(&mut self, v: u64)
        ensures
            final(self).bytes@ == old(self).bytes@ + u64_bytes(v),
    {
        proof {
            reveal(u64_bytes);
        }
        let ghost start = self.bytes@;
        self.bytes.push((v % 0x100) as u8);
        self.bytes.push(((v / 0x100) % 0x100) as u8);
        self.bytes.push(((v / 0x1_0000) % 0x100) as u8);
        self.bytes.push(((v / 0x100_0000) % 0x100) as u8);
        self.bytes.push(((v / 0x1_0000_0000) % 0x100) as u8);
        self.bytes.push(((v / 0x100_0000_0000) % 0x100) as u8);
        self.bytes.push(((v / 0x1_0000_0000_0000) % 0x100) as u8);
        self.bytes.push(((v / 0x100_0000_0000_0000) % 0x100) as u8);
        assert(self.bytes@ =~= start + u64_bytes(v));
    }

    fn u32(&mut self, v: u32)
        ensures
            final(self).bytes@ == old(self).bytes@ + u32_bytes(v),
    {
        proof {
            reveal(u32_bytes);
        }
        let ghost start = self.bytes@;
        self.bytes.push((v % 0x100) as u8);
        self.bytes.push(((v / 0x100) % 0x100) as u8);
        self.bytes.push(((v / 0x1_0000) % 0x100) as u8);
        self.bytes.push(((v / 0x100_0000) % 0x100) as u8);
        assert(self.bytes@ =~= start + u32_bytes(v));
    }

    fn usize(&mut self, value: usize)
        ensures
            final(self).bytes@ == old(self).bytes@ + len_bytes(value as nat),
    {
        proof {
            reveal(len_bytes);
        }
        self.u64(value as u64);
    }

    fn string(&mut self, value: &str)
        ensures
            final(self).bytes@ == old(self).bytes@ + str_bytes(value@),
    {
        proof {
            reveal(str_bytes);
        }
        let ghost start = self.bytes@;
        let b = value.as_bytes();
        self.usize(b.len());
        self.extend(b);
        assert(self.bytes@ =~= start + str_bytes(value@));
    }

    fn token(&mut self, value: &str)
        ensures
            final(self).bytes@ == old(self).bytes@ + str_bytes(value@),
    {
        self.string(value);
    }

    fn bool(&mut self, value: bool)
        ensures
            final(self).bytes@ == old(self).bytes@ + bool_bytes(value),
    {
        proof {
            reveal(bool_bytes);
        }
        self.token(
            if value {
                "true"
            } else {
                "false"
            },
        );
    }

    fn section(&mut self, name: &str, len: usize)
        ensures
            final(self).bytes@ == old(self).bytes@ + section_bytes(name@, len as nat),
    {
        proof {
            reveal(section_bytes);
        }
        let ghost start = self.bytes@;
        self.token("section");
        self.string(name);
        self.usize(len);
        assert(self.bytes@ =~= start + section_bytes(name@, len as nat));
    }

    fn entry(&mut self, key: &str)
        ensures
            final(self).bytes@ == old(self).bytes@ + entry_bytes(key@),
    {
        proof {
            reveal(entry_bytes);
        }
        let ghost start = self.bytes@;
        self.token("entry");
        self.string(key);
        assert(self.bytes@ =~= start + entry_bytes(key@));
    }

    fn field(&mut self, name: &str)
        ensures
            final(self).bytes@ == old(self).bytes@ + field_bytes(name@),
    {
        proof {
            reveal(field_bytes);
        }
        let ghost start = self.bytes@;
        self.token("field");
        self.string(name);
        assert(self.bytes@ =~= start + field_bytes(name@));
    }

    fn field_bool(&mut self, name: &str, value: bool)
        ensures
            final(self).bytes@ == old(self).bytes@ + field_bool_bytes(name@, value),
    {
        proof {
            reveal(field_bool_bytes);
        }
        let ghost start = self.bytes@;
        self.field(name);
        self.bool(value);
        assert(self.bytes@ =~= start + field_bool_bytes(name@, value));
    }

    fn field_u32(&mut self, name: &str, value: u32)
        ensures
            final(self).bytes@ == old(self).bytes@ + field_u32_bytes(name@, value),
    {
        proof {
            reveal(field_u32_bytes);
        }
        let ghost start = self.bytes@;
        self.field(name);
        self.u32(value);
        assert(self.bytes@ =~= start + field_u32_bytes(name@, value));
    }

    fn field_string(&mut self, name: &str, value: &str)
        ensures
            final(self).bytes@ == old(self).bytes@ + field_string_bytes(name@, value@),
    {
        proof {
            reveal(field_string_bytes);
        }
        let ghost start = self.bytes@;
        self.field(name);
        self.string(value);
        assert(self.bytes@ =~= start + field_string_bytes(name@, value@));
    }

    fn option_string(&mut self, value: Option<&str>)
        ensures
            final(self).bytes@ == old(self).bytes@ + option_string_bytes(
                match value {
                    Some(v) => Some(v@),
                    None => None,
                },
            ),
    {
        proof {
            reveal(option_string_bytes);
        }
        let ghost start = self.bytes@;
        match value {
            Some(v) => {
                self.token("some");
                self.string(v);
                assert(self.bytes@ =~= start + option_string_bytes(Some(v@)));
            },
            None => {
                self.token("none");
            },
        }
    }

    fn field_option_string(&mut self, name: &str, value: &Option<String>)
        ensures
            final(self).bytes@ == old(self).bytes@ + field_option_string_bytes(
                name@,
                opt_text(*value),
            ),
    {
        proof {
            reveal(field_option_string_bytes);
        }
        let ghost start = self.bytes@;
        self.field(name);
        match value {
            Some(v) => self.option_string(Some(v.as_str())),
            None => self.option_string(None),
        }
        assert(self.bytes@ =~= start + field_option_string_bytes(name@, opt_text(*value)));
    }
}


impl CanonicalSchemaBytes {
    fn types(&mut self, m: &StrMap<SchemaTypeDefinition>)
        ensures
            final(self).bytes@ == old(self).bytes@ + map_section_bytes("types"@, *m, type_entry_item()),
    {
        let ghost start = self.bytes@;
        self.section("types", m.len());
        let ghost mid = self.bytes@;
        let n = m.len();
        let mut i: usize = 0;
        proof {
            lemma_concat_map_all(m.entry_seq(), type_entry_item());
        }
        while i < n
            invariant
                n == m.entry_seq().len(),
                i <= n,
                mid == start + section_bytes("types"@, n as nat),
                self.bytes@ == mid + concat_map(m.entry_seq().take(i as int), type_entry_item()),
            decreases n - i,
        {
            let e = m.entry_at(i);
            let ghost before = self.bytes@;
            self.entry(e.0.as_str());
            match &e.1 {
                SchemaTypeDefinition::Enum(d) => {
                    self.field_string("kind", "enum");
                    self.string_set("values", &d.values);
                },
            }
            proof {
                lemma_concat_map_step(m.entry_seq(), i as int, type_entry_item());
                assert(self.bytes@ =~= before + type_entry_item()(m.entry_seq()[i as int]));
            }
            i = i + 1;
        }
        proof {
            lemma_concat_map_all(m.entry_seq(), type_entry_item());
        }
        assert(self.bytes@ =~= start + map_section_bytes("types"@, *m, type_entry_item()));
    }

    fn registries(&mut self, m: &StrMap<RegistryDefinition>)
        ensures
            final(self).bytes@ == old(self).bytes@ + map_section_bytes("registries"@, *m, registry_entry_item()),
    {
        let ghost start = self.bytes@;
        self.section("registries", m.len());
        let ghost mid = self.bytes@;
        let n = m.len();
        let mut i: usize = 0;
        proof {
            lemma_concat_map_all(m.entry_seq(), registry_entry_item());
        }
        while i < n
            invariant
                n == m.entry_seq().len(),
                i <= n,
                mid == start + section_bytes("registries"@, n as nat),
                self.bytes@ == mid + concat_map(m.entry_seq().take(i as int), registry_entry_item()),
            decreases n - i,
        {
            let e = m.entry_at(i);
            let ghost before = self.bytes@;
            self.entry(e.0.as_str());
            self.string_set("values", &e.1.values);
            proof {
                lemma_concat_map_step(m.entry_seq(), i as int, registry_entry_item());
                assert(self.bytes@ =~= before + registry_entry_item()(m.entry_seq()[i as int]));
            }
            i = i + 1;
        }
        proof {
            lemma_concat_map_all(m.entry_seq(), registry_entry_item());
        }
        assert(self.bytes@ =~= start + map_section_bytes("registries"@, *m, registry_entry_item()));
    }

    fn speakers(&mut self, m: &StrMap<SpeakerDefinition>)
        ensures
            final(self).bytes@ == old(self).bytes@ + map_section_bytes("speakers"@, *m, speaker_entry_item()),
    {
        let ghost start = self.bytes@;
        self.section("speakers", m.len());
        let ghost mid = self.bytes@;
        let n = m.len();
        let mut i: usize = 0;
        proof {
            lemma_concat_map_all(m.entry_seq(), speaker_entry_item());
        }
        while i < n
            invariant
                n == m.entry_seq().len(),
                i <= n,
                mid == start + section_bytes("speakers"@, n as nat),
                self.bytes@ == mid + concat_map(m.entry_seq().take(i as int), speaker_entry_item()),
            decreases n - i,
        {
            let e = m.entry_at(i);
            let ghost before = self.bytes@;
            self.entry(e.0.as_str());
            self.field_option_string("display_name", &e.1.display_name);
            proof {
                lemma_concat_map_step(m.entry_seq(), i as int, speaker_entry_item());
                assert(self.bytes@ =~= before + speaker_entry_item()(m.entry_seq()[i as int]));
            }
            i = i + 1;
        }
        proof {
            lemma_concat_map_all(m.entry_seq(), speaker_entry_item());
        }
        assert(self.bytes@ =~= start + map_section_bytes("speakers"@, *m, speaker_entry_item()));
    }

    fn conditions(&mut self, m: &StrMap<ConditionDefinition>)
        ensures
            final(self).bytes@ == old(self).bytes@ + map_section_bytes("conditions"@, *m, condition_entry_item()),
    {
        let ghost start = self.bytes@;
        self.section("conditions", m.len());
        let ghost mid = self.bytes@;
        let n = m.len();
        let mut i: usize = 0;
        proof {
            lemma_concat_map_all(m.entry_seq(), condition_entry_item());
        }
        while i < n
            invariant
                n == m.entry_seq().len(),
                i <= n,
                mid == start + section_bytes("conditions"@, n as nat),
                self.bytes@ == mid + concat_map(m.entry_seq().take(i as int), condition_entry_item()),
            decreases n - i,
        {
            let e = m.entry_at(i);
            let ghost before = self.bytes@;
            self.entry(e.0.as_str());
            self.params("params", &e.1.params);
            self.field("returns");
            self.condition_returns(&e.1.returns);
            self.field("availability_reason");
            self.availability_reason_mapping(&e.1.availability_reason);
            proof {
                lemma_concat_map_step(m.entry_seq(), i as int, condition_entry_item());
                assert(self.bytes@ =~= before + condition_entry_item()(m.entry_seq()[i as int]));
            }
            i = i + 1;
        }
        proof {
            lemma_concat_map_all(m.entry_seq(), condition_entry_item());
        }
        assert(self.bytes@ =~= start + map_section_bytes("conditions"@, *m, condition_entry_item()));
    }

    fn availability_reasons(&mut self, m: &StrMap<AvailabilityReasonDefinition>)
        ensures
            final(self).bytes@ == old(self).bytes@ + map_section_bytes("availability_reasons"@, *m, reason_entry_item()),
    {
        let ghost start = self.bytes@;
        self.section("availability_reasons", m.len());
        let ghost mid = self.bytes@;
        let n = m.len();
        let mut i: usize = 0;
        proof {
            lemma_concat_map_all(m.entry_seq(), reason_entry_item());
        }
        while i < n
            invariant
                n == m.entry_seq().len(),
                i <= n,
                mid == start + section_bytes("availability_reasons"@, n as nat),
                self.bytes@ == mid + concat_map(m.entry_seq().take(i as int), reason_entry_item()),
            decreases n - i,
        {
            let e = m.entry_at(i);
            let ghost before = self.bytes@;
            self.entry(e.0.as_str());
            self.field_string("template", e.1.template.as_str());
            self.params("params", &e.1.params);
            proof {
                lemma_concat_map_step(m.entry_seq(), i as int, reason_entry_item());
                assert(self.bytes@ =~= before + reason_entry_item()(m.entry_seq()[i as int]));
            }
            i = i + 1;
        }
        proof {
            lemma_concat_map_all(m.entry_seq(), reason_entry_item());
        }
        assert(self.bytes@ =~= start + map_section_bytes("availability_reasons"@, *m, reason_entry_item()));
    }

    fn effects(&mut self, m: &StrMap<EffectDefinition>)
        ensures
            final(self).bytes@ == old(self).bytes@ + map_section_bytes("effects"@, *m, effect_entry_item()),
    {
        let ghost start = self.bytes@;
        self.section("effects", m.len());
        let ghost mid = self.bytes@;
        let n = m.len();
        let mut i: usize = 0;
        proof {
            lemma_concat_map_all(m.entry_seq(), effect_entry_item());
        }
        while i < n
            invariant
                n == m.entry_seq().len(),
                i <= n,
                mid == start + section_bytes("effects"@, n as nat),
                self.bytes@ == mid + concat_map(m.entry_seq().take(i as int), effect_entry_item()),
            decreases n - i,
        {
            let e = m.entry_at(i);
            let ghost before = self.bytes@;
            self.entry(e.0.as_str());
            self.effect_modes("modes", &e.1.modes);
            self.params("params", &e.1.params);
            proof {
                lemma_concat_map_step(m.entry_seq(), i as int, effect_entry_item());
                assert(self.bytes@ =~= before + effect_entry_item()(m.entry_seq()[i as int]));
            }
            i = i + 1;
        }
        proof {
            lemma_concat_map_all(m.entry_seq(), effect_entry_item());
        }
        assert(self.bytes@ =~= start + map_section_bytes("effects"@, *m, effect_entry_item()));
    }

    fn metadata(&mut self, m: &StrMap<MetadataDefinition>)
        ensures
            final(self).bytes@ == old(self).bytes@ + map_section_bytes("metadata"@, *m, metadata_entry_item()),
    {
        let ghost start = self.bytes@;
        self.section("metadata", m.len());
        let ghost mid = self.bytes@;
        let n = m.len();
        let mut i: usize = 0;
        proof {
            lemma_concat_map_all(m.entry_seq(), metadata_entry_item());
        }
        while i < n
            invariant
                n == m.entry_seq().len(),
                i <= n,
                mid == start + section_bytes("metadata"@, n as nat),
                self.bytes@ == mid + concat_map(m.entry_seq().take(i as int), metadata_entry_item()),
            decreases n - i,
        {
            let e = m.entry_at(i);
            let ghost before = self.bytes@;
            self.entry(e.0.as_str());
            self.metadata_targets("targets", &e.1.targets);
            self.field("type");
            self.type_ref(&e.1.type_ref);
            self.field_bool("repeatable", e.1.repeatable);
            self.field_option_string("domain", &e.1.domain);
            proof {
                lemma_concat_map_step(m.entry_seq(), i as int, metadata_entry_item());
                assert(self.bytes@ =~= before + metadata_entry_item()(m.entry_seq()[i as int]));
            }
            i = i + 1;
        }
        proof {
            lemma_concat_map_all(m.entry_seq(), metadata_entry_item());
        }
        assert(self.bytes@ =~= start + map_section_bytes("metadata"@, *m, metadata_entry_item()));
    }

    fn metadata_domains(&mut self, m: &StrMap<MetadataDomainDefinition>)
        ensures
            final(self).bytes@ == old(self).bytes@ + map_section_bytes("metadata_domains"@, *m, domain_entry_item()),
    {
        let ghost start = self.bytes@;
        self.section("metadata_domains", m.len());
        let ghost mid = self.bytes@;
        let n = m.len();
        let mut i: usize = 0;
        proof {
            lemma_concat_map_all(m.entry_seq(), domain_entry_item());
        }
        while i < n
            invariant
                n == m.entry_seq().len(),
                i <= n,
                mid == start + section_bytes("metadata_domains"@, n as nat),
                self.bytes@ == mid + concat_map(m.entry_seq().take(i as int), domain_entry_item()),
            decreases n - i,
        {
            let e = m.entry_at(i);
            let ghost before = self.bytes@;
            self.entry(e.0.as_str());
            self.metadata_domain(&e.1);
            proof {
                lemma_concat_map_step(m.entry_seq(), i as int, domain_entry_item());
                assert(self.bytes@ =~= before + domain_entry_item()(m.entry_seq()[i as int]));
            }
            i = i + 1;
        }
        proof {
            lemma_concat_map_all(m.entry_seq(), domain_entry_item());
        }
        assert(self.bytes@ =~= start + map_section_bytes("metadata_domains"@, *m, domain_entry_item()));
    }

    fn projection_queries(&mut self, m: &StrMap<ProjectionQueryFunctionDefinition>)
        ensures
            final(self).bytes@ == old(self).bytes@ + map_section_bytes("projection_queries"@, *m, query_function_entry_item()),
    {
        let ghost start = self.bytes@;
        self.section("projection_queries", m.len());
        let ghost mid = self.bytes@;
        let n = m.len();
        let mut i: usize = 0;
        proof {
            lemma_concat_map_all(m.entry_seq(), query_function_entry_item());
        }
        while i < n
            invariant
                n == m.entry_seq().len(),
                i <= n,
                mid == start + section_bytes("projection_queries"@, n as nat),
                self.bytes@ == mid + concat_map(m.entry_seq().take(i as int), query_function_entry_item()),
            decreases n - i,
        {
            let e = m.entry_at(i);
            let ghost before = self.bytes@;
            self.entry(e.0.as_str());
            self.params("params", &e.1.params);
            self.field("returns");
            self.type_ref(&e.1.returns);
            self.field("max_calls_per_event");
            match e.1.max_calls_per_event {
                Some(value) => {
                    let ghost b = self.bytes@;
                    self.token("some");
                    self.u32(value);
                    assert(self.bytes@ =~= b + max_calls_bytes(Some(value))) by {
                        reveal(max_calls_bytes);
                    }
                },
                None => {
                    self.token("none");
                    assert(max_calls_bytes(None) == str_bytes("none"@)) by {
                        reveal(max_calls_bytes);
                    }
                },
            }
            proof {
                lemma_concat_map_step(m.entry_seq(), i as int, query_function_entry_item());
                assert(self.bytes@ =~= before + query_function_entry_item()(m.entry_seq()[i as int]));
            }
            i = i + 1;
        }
        proof {
            lemma_concat_map_all(m.entry_seq(), query_function_entry_item());
        }
        assert(self.bytes@ =~= start + map_section_bytes("projection_queries"@, *m, query_function_entry_item()));
    }

    fn presentation_projectors(&mut self, m: &StrMap<SchemaPresentationProjectorDefinition>)
        ensures
            final(self).bytes@ == old(self).bytes@ + map_section_bytes("presentation_projectors"@, *m, projector_entry_item()),
    {
        let ghost start = self.bytes@;
        self.section("presentation_projectors", m.len());
        let ghost mid = self.bytes@;
        let n = m.len();
        let mut i: usize = 0;
        proof {
            lemma_concat_map_all(m.entry_seq(), projector_entry_item());
        }
        while i < n
            invariant
                n == m.entry_seq().len(),
                i <= n,
                mid == start + section_bytes("presentation_projectors"@, n as nat),
                self.bytes@ == mid + concat_map(m.entry_seq().take(i as int), projector_entry_item()),
            decreases n - i,
        {
            let e = m.entry_at(i);
            let ghost before = self.bytes@;
            self.entry(e.0.as_str());
            self.field("candidates");
            self.schema_projection_selector(&e.1.candidates);
            self.projection_inputs(&e.1.inputs);
            self.projection_query_definitions(&e.1.queries);
            self.presentation_outputs(&e.1.outputs);
            proof {
                lemma_concat_map_step(m.entry_seq(), i as int, projector_entry_item());
                assert(self.bytes@ =~= before + projector_entry_item()(m.entry_seq()[i as int]));
            }
            i = i + 1;
        }
        proof {
            lemma_concat_map_all(m.entry_seq(), projector_entry_item());
        }
        assert(self.bytes@ =~= start + map_section_bytes("presentation_projectors"@, *m, projector_entry_item()));
    }

    fn markup(&mut self, m: &StrMap<MarkupDefinition>)
        ensures
            final(self).bytes@ == old(self).bytes@ + map_section_bytes("markup"@, *m, markup_entry_item()),
    {
        let ghost start = self.bytes@;
        self.section("markup", m.len());
        let ghost mid = self.bytes@;
        let n = m.len();
        let mut i: usize = 0;
        proof {
            lemma_concat_map_all(m.entry_seq(), markup_entry_item());
        }
        while i < n
            invariant
                n == m.entry_seq().len(),
                i <= n,
                mid == start + section_bytes("markup"@, n as nat),
                self.bytes@ == mid + concat_map(m.entry_seq().take(i as int), markup_entry_item()),
            decreases n - i,
        {
            let e = m.entry_at(i);
            let ghost before = self.bytes@;
            self.entry(e.0.as_str());
            self.field_bool("requires_closing", e.1.requires_closing);
            self.field_bool("translatable", e.1.translatable);
            self.field_bool("allows_nesting", e.1.allows_nesting);
            proof {
                lemma_concat_map_step(m.entry_seq(), i as int, markup_entry_item());
                assert(self.bytes@ =~= before + markup_entry_item()(m.entry_seq()[i as int]));
            }
            i = i + 1;
        }
        proof {
            lemma_concat_map_all(m.entry_seq(), markup_entry_item());
        }
        assert(self.bytes@ =~= start + map_section_bytes("markup"@, *m, markup_entry_item()));
    }
}


impl CanonicalSchemaBytes {
    fn string_set(&mut self, name: &str, set: &StrSet)
        ensures
            final(self).bytes@ == old(self).bytes@ + string_set_bytes(name@, *set),
    {
        proof {
            reveal(string_set_bytes);
        }
        let ghost start = self.bytes@;
        self.field(name);
        self.usize(set.len());
        let ghost mid = self.bytes@;
        let n = set.len();
        let mut i: usize = 0;
        proof {
            lemma_concat_map_all(set.elems(), chars_item());
        }
        while i < n
            invariant
                n == set.elems().len(),
                i <= n,
                mid == start + field_bytes(name@) + len_bytes(n as nat),
                self.bytes@ == mid + concat_map(set.elems().take(i as int), chars_item()),
            decreases n - i,
        {
            let x = set.item_at(i);
            let ghost before = self.bytes@;
            self.string(x.as_str());
            proof {
                lemma_concat_map_step(set.elems(), i as int, chars_item());
                assert(self.bytes@ =~= before + (chars_item())(set.elems()[i as int]));
            }
            i = i + 1;
        }
        proof {
            lemma_concat_map_all(set.elems(), chars_item());
        }
        assert(self.bytes@ =~= start + string_set_bytes(name@, *set));
    }

    fn strings(&mut self, values: &Vec<String>)
        ensures
            final(self).bytes@ == old(self).bytes@ + len_bytes(values@.len()) + concat_map(values@, string_item()),
    {
        let ghost start = self.bytes@;
        self.usize(values.len());
        let ghost mid = self.bytes@;
        let n = values.len();
        let mut i: usize = 0;
        proof {
            lemma_concat_map_all(values@, string_item());
        }
        while i < n
            invariant
                n == values@.len(),
                i <= n,
                mid == start + len_bytes(n as nat),
                self.bytes@ == mid + concat_map(values@.take(i as int), string_item()),
            decreases n - i,
        {
            let x = &values[i];
            let ghost before = self.bytes@;
            self.string(x.as_str());
            proof {
                lemma_concat_map_step(values@, i as int, string_item());
                assert(self.bytes@ =~= before + (string_item())(values@[i as int]));
            }
            i = i + 1;
        }
        proof {
            lemma_concat_map_all(values@, string_item());
        }
        assert(self.bytes@ =~= start + len_bytes(values@.len()) + concat_map(values@, string_item()));
    }

    fn effect_modes(&mut self, name: &str, modes: &EffectModeSet)
        ensures
            final(self).bytes@ == old(self).bytes@ + effect_modes_bytes(name@, *modes),
    {
        proof {
            reveal(effect_modes_bytes);
        }
        let ghost start = self.bytes@;
        let list = effect_mode_list(modes);
        self.field(name);
        self.usize(list.len());
        let ghost mid = self.bytes@;
        let n = list.len();
        let mut i: usize = 0;
        proof {
            lemma_concat_map_all(list@, effect_mode_item());
        }
        while i < n
            invariant
                n == list@.len(),
                i <= n,
                mid == start + field_bytes(name@) + len_bytes(n as nat),
                self.bytes@ == mid + concat_map(list@.take(i as int), effect_mode_item()),
            decreases n - i,
        {
            let x = list[i];
            let ghost before = self.bytes@;
            self.string(effect_mode_name(x));
            proof {
                lemma_concat_map_step(list@, i as int, effect_mode_item());
                assert(self.bytes@ =~= before + (effect_mode_item())(list@[i as int]));
            }
            i = i + 1;
        }
        proof {
            lemma_concat_map_all(list@, effect_mode_item());
        }
        assert(self.bytes@ =~= start + effect_modes_bytes(name@, *modes));
    }

    fn metadata_targets(&mut self, name: &str, targets: &MetadataTargetSet)
        ensures
            final(self).bytes@ == old(self).bytes@ + metadata_targets_bytes(name@, *targets),
    {
        proof {
            reveal(metadata_targets_bytes);
        }
        let ghost start = self.bytes@;
        let list = metadata_target_list(targets);
        self.field(name);
        self.usize(list.len());
        let ghost mid = self.bytes@;
        let n = list.len();
        let mut i: usize = 0;
        proof {
            lemma_concat_map_all(list@, metadata_target_item());
        }
        while i < n
            invariant
                n == list@.len(),
                i <= n,
                mid == start + field_bytes(name@) + len_bytes(n as nat),
                self.bytes@ == mid + concat_map(list@.take(i as int), metadata_target_item()),
            decreases n - i,
        {
            let x = list[i];
            let ghost before = self.bytes@;
            self.string(metadata_target_name(x));
            proof {
                lemma_concat_map_step(list@, i as int, metadata_target_item());
                assert(self.bytes@ =~= before + (metadata_target_item())(list@[i as int]));
            }
            i = i + 1;
        }
        proof {
            lemma_concat_map_all(list@, metadata_target_item());
        }
        assert(self.bytes@ =~= start + metadata_targets_bytes(name@, *targets));
    }

    fn params(&mut self, name: &str, params: &Vec<ParameterDefinition>)
        ensures
            final(self).bytes@ == old(self).bytes@ + params_bytes(name@, params@),
    {
        proof {
            reveal(params_bytes);
        }
        let ghost start = self.bytes@;
        self.field(name);
        self.usize(params.len());
        let ghost mid = self.bytes@;
        let n = params.len();
        let mut i: usize = 0;
        proof {
            lemma_concat_map_all(params@, param_item());
        }
        while i < n
            invariant
                n == params@.len(),
                i <= n,
                mid == start + field_bytes(name@) + len_bytes(n as nat),
                self.bytes@ == mid + concat_map(params@.take(i as int), param_item()),
            decreases n - i,
        {
            let x = &params[i];
            let ghost before = self.bytes@;
            self.entry(x.name.as_str());
            self.field("type");
            self.type_ref(&x.type_ref);
            proof {
                lemma_concat_map_step(params@, i as int, param_item());
                assert(self.bytes@ =~= before + (param_item())(params@[i as int]));
            }
            i = i + 1;
        }
        proof {
            lemma_concat_map_all(params@, param_item());
        }
        assert(self.bytes@ =~= start + params_bytes(name@, params@));
    }

    fn projection_inputs(&mut self, inputs: &Vec<ProjectionInput>)
        ensures
            final(self).bytes@ == old(self).bytes@ + inputs_bytes(inputs@),
    {
        proof {
            reveal(inputs_bytes);
        }
        let ghost start = self.bytes@;
        self.field("inputs");
        self.usize(inputs.len());
        let ghost mid = self.bytes@;
        let n = inputs.len();
        let mut i: usize = 0;
        proof {
            lemma_concat_map_all(inputs@, input_item());
        }
        while i < n
            invariant
                n == inputs@.len(),
                i <= n,
                mid == start + field_bytes("inputs"@) + len_bytes(n as nat),
                self.bytes@ == mid + concat_map(inputs@.take(i as int), input_item()),
            decreases n - i,
        {
            let x = &inputs[i];
            let ghost before = self.bytes@;
            self.entry(x.name.as_str());
            self.field("source");
            self.schema_projection_input_source(&x.source);
            self.field("type");
            self.type_ref(&x.type_ref);
            self.field_bool("required", x.required);
            proof {
                lemma_concat_map_step(inputs@, i as int, input_item());
                assert(self.bytes@ =~= before + (input_item())(inputs@[i as int]));
            }
            i = i + 1;
        }
        proof {
            lemma_concat_map_all(inputs@, input_item());
        }
        assert(self.bytes@ =~= start + inputs_bytes(inputs@));
    }

    fn projection_input_refs(&mut self, name: &str, refs: &Vec<ProjectionInputRef>)
        ensures
            final(self).bytes@ == old(self).bytes@ + input_refs_bytes(name@, refs@),
    {
        proof {
            reveal(input_refs_bytes);
        }
        let ghost start = self.bytes@;
        self.field(name);
        self.usize(refs.len());
        let ghost mid = self.bytes@;
        let n = refs.len();
        let mut i: usize = 0;
        proof {
            lemma_concat_map_all(refs@, input_ref_item());
        }
        while i < n
            invariant
                n == refs@.len(),
                i <= n,
                mid == start + field_bytes(name@) + len_bytes(n as nat),
                self.bytes@ == mid + concat_map(refs@.take(i as int), input_ref_item()),
            decreases n - i,
        {
            let x = &refs[i];
            let ghost before = self.bytes@;
            self.projection_input_ref(x);
            proof {
                lemma_concat_map_step(refs@, i as int, input_ref_item());
                assert(self.bytes@ =~= before + (input_ref_item())(refs@[i as int]));
            }
            i = i + 1;
        }
        proof {
            lemma_concat_map_all(refs@, input_ref_item());
        }
        assert(self.bytes@ =~= start + input_refs_bytes(name@, refs@));
    }

    fn reason_args(&mut self, args: &StrMap<AvailabilityReasonArgBinding>)
        ensures
            final(self).bytes@ == old(self).bytes@ + field_bytes("args"@) + len_bytes(args.entry_seq().len()) + concat_map(args.entry_seq(), arg_binding_item()),
    {
        let ghost start = self.bytes@;
        self.field("args");
        self.usize(args.len());
        let ghost mid = self.bytes@;
        let n = args.len();
        let mut i: usize = 0;
        proof {
            lemma_concat_map_all(args.entry_seq(), arg_binding_item());
        }
        while i < n
            invariant
                n == args.entry_seq().len(),
                i <= n,
                mid == start + field_bytes("args"@) + len_bytes(n as nat),
                self.bytes@ == mid + concat_map(args.entry_seq().take(i as int), arg_binding_item()),
            decreases n - i,
        {
            let x = args.entry_at(i);
            let ghost before = self.bytes@;
            self.entry(x.0.as_str());
            self.availability_reason_arg_binding(&x.1);
            proof {
                lemma_concat_map_step(args.entry_seq(), i as int, arg_binding_item());
                assert(self.bytes@ =~= before + (arg_binding_item())(args.entry_seq()[i as int]));
            }
            i = i + 1;
        }
        proof {
            lemma_concat_map_all(args.entry_seq(), arg_binding_item());
        }
        assert(self.bytes@ =~= start + field_bytes("args"@) + len_bytes(args.entry_seq().len()) + concat_map(args.entry_seq(), arg_binding_item()));
    }

    fn values_by_context(&mut self, m: &StrMap<StrSet>)
        ensures
            final(self).bytes@ == old(self).bytes@ + field_bytes("values_by_context"@) + len_bytes(m.entry_seq().len()) + concat_map(m.entry_seq(), context_values_item()),
    {
        let ghost start = self.bytes@;
        self.field("values_by_context");
        self.usize(m.len());
        let ghost mid = self.bytes@;
        let n = m.len();
        let mut i: usize = 0;
        proof {
            lemma_concat_map_all(m.entry_seq(), context_values_item());
        }
        while i < n
            invariant
                n == m.entry_seq().len(),
                i <= n,
                mid == start + field_bytes("values_by_context"@) + len_bytes(n as nat),
                self.bytes@ == mid + concat_map(m.entry_seq().take(i as int), context_values_item()),
            decreases n - i,
        {
            let x = m.entry_at(i);
            let ghost before = self.bytes@;
            self.entry(x.0.as_str());
            self.string_set("values", &x.1);
            proof {
                lemma_concat_map_step(m.entry_seq(), i as int, context_values_item());
                assert(self.bytes@ =~= before + (context_values_item())(m.entry_seq()[i as int]));
            }
            i = i + 1;
        }
        proof {
            lemma_concat_map_all(m.entry_seq(), context_values_item());
        }
        assert(self.bytes@ =~= start + field_bytes("values_by_context"@) + len_bytes(m.entry_seq().len()) + concat_map(m.entry_seq(), context_values_item()));
    }

    fn projection_query_definitions(&mut self, m: &StrMap<ProjectionQueryDefinition>)
        ensures
            final(self).bytes@ == old(self).bytes@ + queries_bytes(*m),
    {
        proof {
            reveal(queries_bytes);
        }
        let ghost start = self.bytes@;
        self.field("queries");
        self.usize(m.len());
        let ghost mid = self.bytes@;
        let n = m.len();
        let mut i: usize = 0;
        proof {
            lemma_concat_map_all(m.entry_seq(), query_entry_item());
        }
        while i < n
            invariant
                n == m.entry_seq().len(),
                i <= n,
                mid == start + field_bytes("queries"@) + len_bytes(n as nat),
                self.bytes@ == mid + concat_map(m.entry_seq().take(i as int), query_entry_item()),
            decreases n - i,
        {
            let x = m.entry_at(i);
            let ghost before = self.bytes@;
            self.entry(x.0.as_str());
            self.field_string("function", x.1.function.as_str());
            self.projection_input_refs("args", &x.1.args);
            proof {
                lemma_concat_map_step(m.entry_seq(), i as int, query_entry_item());
                assert(self.bytes@ =~= before + (query_entry_item())(m.entry_seq()[i as int]));
            }
            i = i + 1;
        }
        proof {
            lemma_concat_map_all(m.entry_seq(), query_entry_item());
        }
        assert(self.bytes@ =~= start + queries_bytes(*m));
    }

    fn presentation_outputs(&mut self, m: &StrMap<PresentationAffordanceOutputDefinition>)
        ensures
            final(self).bytes@ == old(self).bytes@ + outputs_bytes(*m),
    {
        proof {
            reveal(outputs_bytes);
        }
        let ghost start = self.bytes@;
        self.field("outputs");
        self.usize(m.len());
        let ghost mid = self.bytes@;
        let n = m.len();
        let mut i: usize = 0;
        proof {
            lemma_concat_map_all(m.entry_seq(), output_entry_item());
        }
        while i < n
            invariant
                n == m.entry_seq().len(),
                i <= n,
                mid == start + field_bytes("outputs"@) + len_bytes(n as nat),
                self.bytes@ == mid + concat_map(m.entry_seq().take(i as int), output_entry_item()),
            decreases n - i,
        {
            let x = m.entry_at(i);
            let ghost before = self.bytes@;
            self.entry(x.0.as_str());
            self.presentation_output(&x.1);
            proof {
                lemma_concat_map_step(m.entry_seq(), i as int, output_entry_item());
                assert(self.bytes@ =~= before + (output_entry_item())(m.entry_seq()[i as int]));
            }
            i = i + 1;
        }
        proof {
            lemma_concat_map_all(m.entry_seq(), output_entry_item());
        }
        assert(self.bytes@ =~= start + outputs_bytes(*m));
    }

    fn output_fields(&mut self, m: &StrMap<PresentationAffordanceFieldDefinition>)
        ensures
            final(self).bytes@ == old(self).bytes@ + field_bytes("fields"@) + len_bytes(m.entry_seq().len()) + concat_map(m.entry_seq(), output_field_entry_item()),
    {
        let ghost start = self.bytes@;
        self.field("fields");
        self.usize(m.len());
        let ghost mid = self.bytes@;
        let n = m.len();
        let mut i: usize = 0;
        proof {
            lemma_concat_map_all(m.entry_seq(), output_field_entry_item());
        }
        while i < n
            invariant
                n == m.entry_seq().len(),
                i <= n,
                mid == start + field_bytes("fields"@) + len_bytes(n as nat),
                self.bytes@ == mid + concat_map(m.entry_seq().take(i as int), output_field_entry_item()),
            decreases n - i,
        {
            let x = m.entry_at(i);
            let ghost before = self.bytes@;
            self.entry(x.0.as_str());
            self.field("source");
            self.presentation_field_source(&x.1.source);
            self.field("type");
            self.type_ref(&x.1.type_ref);
            proof {
                lemma_concat_map_step(m.entry_seq(), i as int, output_field_entry_item());
                assert(self.bytes@ =~= before + (output_field_entry_item())(m.entry_seq()[i as int]));
            }
            i = i + 1;
        }
        proof {
            lemma_concat_map_all(m.entry_seq(), output_field_entry_item());
        }
        assert(self.bytes@ =~= start + field_bytes("fields"@) + len_bytes(m.entry_seq().len()) + concat_map(m.entry_seq(), output_field_entry_item()));
    }

    fn label_args(&mut self, m: &StrMap<PresentationLabelArgDefinition>)
        ensures
            final(self).bytes@ == old(self).bytes@ + field_bytes("args"@) + len_bytes(m.entry_seq().len()) + concat_map(m.entry_seq(), label_arg_entry_item()),
    {
        let ghost start = self.bytes@;
        self.field("args");
        self.usize(m.len());
        let ghost mid = self.bytes@;
        let n = m.len();
        let mut i: usize = 0;
        proof {
            lemma_concat_map_all(m.entry_seq(), label_arg_entry_item());
        }
        while i < n
            invariant
                n == m.entry_seq().len(),
                i <= n,
                mid == start + field_bytes("args"@) + len_bytes(n as nat),
                self.bytes@ == mid + concat_map(m.entry_seq().take(i as int), label_arg_entry_item()),
            decreases n - i,
        {
            let x = m.entry_at(i);
            let ghost before = self.bytes@;
            self.entry(x.0.as_str());
            self.field("source");
            self.projection_input_ref(&x.1.source);
            self.field("type");
            self.type_ref(&x.1.type_ref);
            proof {
                lemma_concat_map_step(m.entry_seq(), i as int, label_arg_entry_item());
                assert(self.bytes@ =~= before + (label_arg_entry_item())(m.entry_seq()[i as int]));
            }
            i = i + 1;
        }
        proof {
            lemma_concat_map_all(m.entry_seq(), label_arg_entry_item());
        }
        assert(self.bytes@ =~= start + field_bytes("args"@) + len_bytes(m.entry_seq().len()) + concat_map(m.entry_seq(), label_arg_entry_item()));
    }
}


impl CanonicalSchemaBytes {
    fn condition_returns(&mut self, ret: &ConditionReturnType)
        ensures
            final(self).bytes@ == old(self).bytes@ + condition_returns_bytes(*ret),
    {
        proof {
            reveal(condition_returns_bytes);
        }
        let ghost start = self.bytes@;
        match ret {
            ConditionReturnType::Bool => self.string("bool"),
            ConditionReturnType::Enum(name) => {
                self.token("enum");
                self.string(name.as_str());
            },
        }
        assert(self.bytes@ =~= start + condition_returns_bytes(*ret));
    }

    fn availability_reason_mapping(&mut self, mapping: &Option<ConditionAvailabilityReasonMapping>)
        ensures
            final(self).bytes@ == old(self).bytes@ + reason_mapping_bytes(*mapping),
    {
        proof {
            reveal(reason_mapping_bytes);
        }
        let ghost start = self.bytes@;
        match mapping {
            Some(m) => {
                self.token("some");
                self.field_string("reason", m.reason.as_str());
                self.reason_args(&m.args);
            },
            None => self.token("none"),
        }
        assert(self.bytes@ =~= start + reason_mapping_bytes(*mapping));
    }

    fn availability_reason_arg_binding(&mut self, binding: &AvailabilityReasonArgBinding)
        ensures
            final(self).bytes@ == old(self).bytes@ + arg_binding_bytes(*binding),
    {
        proof {
            reveal(arg_binding_bytes);
        }
        let ghost start = self.bytes@;
        match binding {
            AvailabilityReasonArgBinding::ConditionParam(name) => {
                self.token("condition_param");
                self.string(name.as_str());
            },
            AvailabilityReasonArgBinding::Literal(value) => {
                self.token("literal");
                self.schema_literal_value(value);
            },
        }
        assert(self.bytes@ =~= start + arg_binding_bytes(*binding));
    }

    fn schema_literal_value(&mut self, value: &SchemaLiteralValue)
        ensures
            final(self).bytes@ == old(self).bytes@ + literal_bytes(*value),
    {
        proof {
            reveal(literal_bytes);
        }
        let ghost start = self.bytes@;
        match value {
            SchemaLiteralValue::String(v) => {
                self.token("string");
                self.string(v.as_str());
            },
            SchemaLiteralValue::Int(v) => {
                self.token("int");
                self.u64(*v as u64);
            },
            SchemaLiteralValue::Float(v) => {
                self.token("float");
                self.string(v.as_str());
            },
            SchemaLiteralValue::Bool(v) => {
                self.token("bool");
                self.bool(*v);
            },
        }
        assert(self.bytes@ =~= start + literal_bytes(*value));
    }

    fn type_ref(&mut self, type_ref: &crate::model::SchemaTypeRef)
        ensures
            final(self).bytes@ == old(self).bytes@ + type_ref_bytes(type_ref@),
        decreases type_ref,
    {
        let ghost start = self.bytes@;
        match type_ref {
            crate::model::SchemaTypeRef::String => self.string("string"),
            crate::model::SchemaTypeRef::Symbol => self.string("symbol"),
            crate::model::SchemaTypeRef::Int => self.string("int"),
            crate::model::SchemaTypeRef::Float => self.string("float"),
            crate::model::SchemaTypeRef::Bool => self.string("bool"),
            crate::model::SchemaTypeRef::Speaker => self.string("speaker"),
            crate::model::SchemaTypeRef::Enum(name) => {
                self.token("enum");
                self.string(name.as_str());
            },
            crate::model::SchemaTypeRef::Registry(name) => {
                self.token("registry");
                self.string(name.as_str());
            },
            crate::model::SchemaTypeRef::Array(inner) => {
                self.token("array");
                self.type_ref(inner);
            },
        }
        assert(self.bytes@ =~= start + type_ref_bytes(type_ref@));
    }

    fn metadata_domain(&mut self, domain: &MetadataDomainDefinition)
        ensures
            final(self).bytes@ == old(self).bytes@ + domain_bytes(*domain),
    {
        proof {
            reveal(domain_bytes);
        }
        let ghost start = self.bytes@;
        match domain {
            MetadataDomainDefinition::Flat(d) => {
                self.field_string("kind", "flat");
                self.string_set("values", &d.values);
            },
            MetadataDomainDefinition::Contextual(d) => {
                self.field_string("kind", "contextual");
                self.field("selector");
                self.metadata_context_selector(&d.selector);
                self.values_by_context(&d.values_by_context);
                self.field("missing_context");
                self.missing_metadata_context_policy(&d.missing_context);
            },
        }
        assert(self.bytes@ =~= start + domain_bytes(*domain));
    }

    fn presentation_output(&mut self, output: &PresentationAffordanceOutputDefinition)
        ensures
            final(self).bytes@ == old(self).bytes@ + output_bytes(*output),
    {
        proof {
            reveal(output_bytes);
            reveal(option_label_bytes);
        }
        let ghost start = self.bytes@;
        self.field("target");
        self.projection_output_target(&output.target);
        self.field_string("kind", output.kind.as_str());
        self.field_string("slot", output.slot.as_str());
        self.field("label");
        match &output.label {
            Some(label) => {
                let ghost b = self.bytes@;
                self.token("some");
                self.presentation_label(label);
                assert(self.bytes@ =~= b + option_label_bytes(output.label));
            },
            None => self.token("none"),
        }
        self.output_fields(&output.fields);
        assert(self.bytes@ =~= start + output_bytes(*output));
    }

    fn presentation_label(&mut self, label: &PresentationLabelDefinition)
        ensures
            final(self).bytes@ == old(self).bytes@ + label_bytes(*label),
    {
        proof {
            reveal(label_bytes);
        }
        let ghost start = self.bytes@;
        self.field_string("template_id", label.template_id.as_str());
        self.field_string("source_text", label.source_text.as_str());
        self.label_args(&label.args);
        assert(self.bytes@ =~= start + label_bytes(*label));
    }

    fn schema_projection_selector(&mut self, selector: &SchemaProjectionSelector)
        ensures
            final(self).bytes@ == old(self).bytes@ + projection_selector_bytes(*selector),
    {
        proof {
            reveal(projection_selector_bytes);
        }
        let ghost start = self.bytes@;
        match selector {
            SchemaProjectionSelector::RuntimeEvent { kind } => {
                self.token("runtime_event");
                self.string(kind.as_str());
            },
            SchemaProjectionSelector::MetadataKey { target, key } => {
                self.token("metadata_key");
                self.metadata_target(*target);
                self.string(key.as_str());
            },
            SchemaProjectionSelector::MetadataSet { target, required_keys } => {
                self.token("metadata_set");
                self.metadata_target(*target);
                self.strings(required_keys);
            },
            SchemaProjectionSelector::AvailabilityReason { reason_id } => {
                self.token("availability_reason");
                self.string(reason_id.as_str());
            },
        }
        assert(self.bytes@ =~= start + projection_selector_bytes(*selector));
    }

    fn schema_projection_input_source(&mut self, source: &SchemaProjectionInputSource)
        ensures
            final(self).bytes@ == old(self).bytes@ + input_source_bytes(*source),
    {
        proof {
            reveal(input_source_bytes);
        }
        let ghost start = self.bytes@;
        match source {
            SchemaProjectionInputSource::EventKind => self.string("event_kind"),
            SchemaProjectionInputSource::CandidateLineId => self.string("candidate_line_id"),
            SchemaProjectionInputSource::CandidateChoiceId => self.string("candidate_choice_id"),
            SchemaProjectionInputSource::CandidateEffectRequestId => {
                self.string("candidate_effect_request_id");
            },
            SchemaProjectionInputSource::CandidateBlockId => self.string("candidate_block_id"),
            SchemaProjectionInputSource::CandidateProject => self.string("candidate_project"),
            SchemaProjectionInputSource::CandidateMetadata { key, occurrence } => {
                self.token("candidate_metadata");
                self.string(key.as_str());
                self.metadata_occurrence(occurrence);
            },
            SchemaProjectionInputSource::AvailabilityReasonArg { name } => {
                self.token("availability_reason_arg");
                self.string(name.as_str());
            },
            SchemaProjectionInputSource::Literal(value) => {
                self.token("literal");
                self.schema_literal_value(value);
            },
        }
        assert(self.bytes@ =~= start + input_source_bytes(*source));
    }

    fn projection_input_ref(&mut self, input_ref: &ProjectionInputRef)
        ensures
            final(self).bytes@ == old(self).bytes@ + input_ref_bytes(*input_ref),
    {
        proof {
            reveal(input_ref_bytes);
        }
        let ghost start = self.bytes@;
        match input_ref {
            ProjectionInputRef::Input { name } => {
                self.token("input");
                self.string(name.as_str());
            },
            ProjectionInputRef::QueryResult { name } => {
                self.token("query_result");
                self.string(name.as_str());
            },
        }
        assert(self.bytes@ =~= start + input_ref_bytes(*input_ref));
    }

    fn presentation_field_source(&mut self, source: &PresentationAffordanceFieldSource)
        ensures
            final(self).bytes@ == old(self).bytes@ + field_source_bytes(*source),
    {
        proof {
            reveal(field_source_bytes);
        }
        let ghost start = self.bytes@;
        match source {
            PresentationAffordanceFieldSource::Input { name } => {
                self.token("input");
                self.string(name.as_str());
            },
            PresentationAffordanceFieldSource::QueryResult { name } => {
                self.token("query_result");
                self.string(name.as_str());
            },
            PresentationAffordanceFieldSource::Literal(value) => {
                self.token("literal");
                self.schema_literal_value(value);
            },
        }
        assert(self.bytes@ =~= start + field_source_bytes(*source));
    }

    fn projection_output_target(&mut self, target: &ProjectionOutputTarget)
        ensures
            final(self).bytes@ == old(self).bytes@ + output_target_bytes(*target),
    {
        proof {
            reveal(output_target_bytes);
        }
        match target {
            ProjectionOutputTarget::Candidate => self.string("candidate"),
            ProjectionOutputTarget::Event => self.string("event"),
            ProjectionOutputTarget::Prompt => self.string("prompt"),
        }
    }

    fn metadata_target(&mut self, target: MetadataTarget)
        ensures
            final(self).bytes@ == old(self).bytes@ + str_bytes(metadata_target_text(target)),
    {
        self.string(metadata_target_name(target));
    }

    fn metadata_occurrence(&mut self, occurrence: &MetadataOccurrence)
        ensures
            final(self).bytes@ == old(self).bytes@ + occurrence_bytes(*occurrence),
    {
        proof {
            reveal(occurrence_bytes);
        }
        let ghost start = self.bytes@;
        match occurrence {
            MetadataOccurrence::Only => self.string("only"),
            MetadataOccurrence::First => self.string("first"),
            MetadataOccurrence::Last => self.string("last"),
            MetadataOccurrence::Index(index) => {
                self.token("index");
                self.u32(*index);
            },
            MetadataOccurrence::All => self.string("all"),
        }
        assert(self.bytes@ =~= start + occurrence_bytes(*occurrence));
    }

    fn metadata_context_selector(&mut self, selector: &MetadataContextSelector)
        ensures
            final(self).bytes@ == old(self).bytes@ + context_selector_bytes(*selector),
    {
        proof {
            reveal(context_selector_bytes);
        }
        let ghost start = self.bytes@;
        match selector {
            MetadataContextSelector::FieldSpeaker => self.string("field:speaker"),
            MetadataContextSelector::MetadataKey(key) => {
                self.token("metadata");
                self.string(key.as_str());
            },
        }
        assert(self.bytes@ =~= start + context_selector_bytes(*selector));
    }

    fn missing_metadata_context_policy(&mut self, policy: &MissingMetadataContextPolicy)
        ensures
            final(self).bytes@ == old(self).bytes@ + missing_policy_bytes(*policy),
    {
        proof {
            reveal(missing_policy_bytes);
        }
        let ghost start = self.bytes@;
        match policy {
            MissingMetadataContextPolicy::Diagnostic => self.string("diagnostic"),
            MissingMetadataContextPolicy::Empty => self.string("empty"),
            MissingMetadataContextPolicy::Fallback { domain } => {
                self.token("fallback");
                self.string(domain.as_str());
            },
        }
        assert(self.bytes@ =~= start + missing_policy_bytes(*policy));
    }
}

} // verus!
