//! The manifest as read from its text, before validation.
//!
//! Objects of named entries keep their source order; values keep what the
//! lowering checks and nothing more.
use vstd::prelude::*;

verus! {

/// A JSON value; a number keeps its lexeme and whether it reads as a finite `f64`.
#[derive(Debug)]
pub enum RawValue {
    Null,
    Bool(bool),
    Number(RawNumber),
    String(String),
    Array(Vec<RawValue>),
    /// Members in source order.
    Object(Vec<(String, RawValue)>),
}

/// A number as written, with whether it is a finite `f64`.
#[derive(Debug)]
pub struct RawNumber {
    pub lexeme: String,
    pub finite: bool,
}

/// A named entry of a manifest object.
#[derive(Debug)]
pub struct Named<T> {
    pub name: String,
    pub value: T,
}

/// The producer that exported a manifest.
#[derive(Debug)]
pub struct RawProducerIdentity {
    pub kind: String,
    pub id: String,
}

/// A manifest-level content digest.
#[derive(Debug)]
pub struct RawContentFingerprint {
    pub algorithm: String,
    pub value: String,
}

/// Host-side provenance of a definition or value.
#[derive(Debug)]
pub struct RawProducerOrigin {
    pub kind: String,
    pub id: String,
    pub label: Option<String>,
    /// Extension members in increasing key order.
    pub extensions: Vec<(String, RawValue)>,
}

/// A `value_origins` or `context_origins` object: origins by key, or a
/// value that is not an object of origins.
#[derive(Debug)]
pub enum RawOriginMap {
    Entries(Vec<(String, RawProducerOrigin)>),
    Malformed,
}

/// A producer input fingerprint.
#[derive(Debug)]
pub struct RawProducerFingerprint {
    pub id: String,
    pub kind: String,
    pub algorithm: String,
    pub value: String,
}

#[derive(Debug)]
pub struct RawTypeDefinition {
    pub kind: String,
    pub values: Vec<String>,
}

#[derive(Debug)]
pub struct RawRegistryDefinition {
    pub values: Vec<String>,
    pub origin: Option<RawProducerOrigin>,
    pub value_origins: Option<RawOriginMap>,
    pub producer_fingerprints: Vec<RawProducerFingerprint>,
}

#[derive(Debug)]
pub struct RawSpeakerDefinition {
    pub display_name: Option<String>,
}

#[derive(Debug)]
pub struct RawParameterDefinition {
    pub name: String,
    pub type_ref: String,
}

#[derive(Debug)]
pub struct RawConditionDefinition {
    pub params: Vec<RawParameterDefinition>,
    pub returns: Option<String>,
    pub availability_reason: Option<RawConditionAvailabilityReasonMapping>,
}

#[derive(Debug)]
pub struct RawConditionAvailabilityReasonMapping {
    pub reason: String,
    pub args: Vec<Named<RawValue>>,
}

#[derive(Debug)]
pub struct RawAvailabilityReasonDefinition {
    pub template: String,
    pub params: Vec<RawParameterDefinition>,
    pub origin: Option<RawProducerOrigin>,
}

#[derive(Debug)]
pub struct RawEffectDefinition {
    pub modes: Vec<String>,
    pub params: Vec<RawParameterDefinition>,
}

#[derive(Debug)]
pub struct RawMetadataDefinition {
    pub targets: Vec<String>,
    pub type_ref: String,
    pub repeatable: bool,
    pub domain: Option<String>,
}

#[derive(Debug)]
pub struct RawMetadataDomainDefinition {
    pub kind: String,
    pub values: Option<Vec<String>>,
    pub selector: Option<String>,
    pub values_by_context: Option<Vec<Named<Vec<String>>>>,
    pub missing_context: Option<RawMissingMetadataContext>,
    pub origin: Option<RawProducerOrigin>,
    pub value_origins: Option<RawDomainValueOrigins>,
    pub context_origins: Option<RawOriginMap>,
    pub producer_fingerprints: Vec<RawProducerFingerprint>,
}

/// A domain's `value_origins` member, read both ways: as origins by value
/// (a flat domain) and as origins by value by context (a contextual one).
#[derive(Debug)]
pub struct RawDomainValueOrigins {
    pub flat: RawOriginMap,
    pub by_context: RawContextOrigins,
}

/// Origins by value by context, members in source order; or a value that
/// is not an object.
#[derive(Debug)]
pub enum RawContextOrigins {
    Entries(Vec<(String, RawOriginMap)>),
    Malformed,
}

#[derive(Debug)]
pub struct RawMissingMetadataContext {
    pub policy: String,
    pub domain: Option<String>,
}

#[derive(Debug)]
pub struct RawProjectionQueryFunctionDefinition {
    pub params: Vec<RawParameterDefinition>,
    pub returns: String,
    pub max_calls_per_event: Option<u32>,
}

#[derive(Debug)]
pub struct RawPresentationProjectorDefinition {
    pub candidates: RawProjectionSelector,
    pub inputs: Vec<RawProjectionInput>,
    pub queries: Vec<Named<RawProjectionQueryDefinition>>,
    pub outputs: Vec<Named<RawPresentationAffordanceOutputDefinition>>,
}

#[derive(Debug)]
pub enum RawProjectionSelector {
    RuntimeEvent { event: String },
    MetadataKey { target: String, key: String },
    MetadataSet { target: String, required_keys: Vec<String> },
    AvailabilityReason { reason: String },
}

#[derive(Debug)]
pub struct RawProjectionInput {
    pub name: String,
    pub source: RawProjectionInputSource,
    pub type_ref: String,
    pub required: bool,
}

#[derive(Debug)]
pub enum RawProjectionInputSource {
    EventKind,
    CandidateLineId,
    CandidateChoiceId,
    CandidateEffectRequestId,
    CandidateBlockId,
    CandidateProject,
    CandidateMetadata { key: String, occurrence: Option<RawMetadataOccurrence> },
    AvailabilityReasonArg { name: String },
    Literal { value: RawValue },
}

#[derive(Debug)]
pub enum RawMetadataOccurrence {
    Named(String),
    Index(u32),
}

#[derive(Debug)]
pub struct RawProjectionQueryDefinition {
    pub function: String,
    pub args: Vec<RawProjectionInputRef>,
}

#[derive(Debug)]
pub enum RawProjectionInputRef {
    Input { input: String },
    QueryResult { query_result: String },
}

#[derive(Debug)]
pub struct RawPresentationAffordanceOutputDefinition {
    pub target: String,
    pub kind: String,
    pub slot: String,
    pub label: Option<RawPresentationLabelDefinition>,
    pub fields: Vec<Named<RawPresentationAffordanceFieldDefinition>>,
}

#[derive(Debug)]
pub struct RawPresentationLabelDefinition {
    pub template_id: String,
    pub source_text: String,
    pub args: Vec<Named<RawPresentationLabelArgDefinition>>,
}

#[derive(Debug)]
pub struct RawPresentationLabelArgDefinition {
    pub source: RawProjectionInputRef,
    pub type_ref: String,
}

#[derive(Debug)]
pub struct RawPresentationAffordanceFieldDefinition {
    pub source: RawPresentationAffordanceFieldSource,
    pub type_ref: String,
}

#[derive(Debug)]
pub enum RawPresentationAffordanceFieldSource {
    Input { name: String },
    QueryResult { name: String },
    Literal { value: RawValue },
}

#[derive(Debug)]
pub struct RawMarkupDefinition {
    pub requires_closing: bool,
    pub translatable: bool,
    pub allows_nesting: Option<bool>,
}

/// A generated schema manifest, as read.
#[derive(Debug)]
pub struct RawManifest {
    pub schema_version: RawValue,
    pub producer: Option<RawProducerIdentity>,
    pub content_fingerprint: Option<RawContentFingerprint>,
    pub schema_export_version: Option<u32>,
    pub inclusion_policy: Option<String>,
    pub producer_fingerprints: Vec<RawProducerFingerprint>,
    pub types: Vec<Named<RawTypeDefinition>>,
    pub registries: Vec<Named<RawRegistryDefinition>>,
    pub speakers: Vec<Named<RawSpeakerDefinition>>,
    pub conditions: Vec<Named<RawConditionDefinition>>,
    pub availability_reasons: Vec<Named<RawAvailabilityReasonDefinition>>,
    pub effects: Vec<Named<RawEffectDefinition>>,
    pub metadata_domains: Vec<Named<RawMetadataDomainDefinition>>,
    pub metadata: Vec<Named<RawMetadataDefinition>>,
    pub projection_queries: Vec<Named<RawProjectionQueryFunctionDefinition>>,
    pub presentation_projectors: Vec<Named<RawPresentationProjectorDefinition>>,
    pub markup: Vec<Named<RawMarkupDefinition>>,
}

} // verus!
