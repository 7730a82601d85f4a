//! Canonical, deterministic schema model consumed by compiler and tooling.
use vstd::prelude::*;
use crate::collections::{StrMap, StrSet};
use crate::model::fingerprint::{ContentFingerprint, SchemaFingerprint};
use crate::model::producer::{
    ContextualMetadataProvenance, FlatMetadataProvenance, ProducerFingerprint, ProducerMetadata,
    ProducerOrigin,
};

pub mod canonical;
pub mod decode;
pub mod fingerprint;
pub mod freshness;
pub mod identity;
pub mod producer;
pub mod producer_validation;

verus! {

/// How an effect request is delivered to the game.
#[derive(Clone, Copy, Debug, PartialEq, Eq, PartialOrd, Ord, Hash)]
pub enum EffectMode {
    Deferred,
    Immediate,
    Blocking,
}

/// A set of effect modes, iterated in `EffectMode` order.
#[derive(Clone, Copy, Debug, PartialEq, Eq, Default)]
pub struct EffectModeSet {
    pub deferred: bool,
    pub immediate: bool,
    pub blocking: bool,
}

impl EffectModeSet {
    /// Whether the set holds `mode`.
    pub open spec fn has(&self, mode: EffectMode) -> bool {
        match mode {
            EffectMode::Deferred => self.deferred,
            EffectMode::Immediate => self.immediate,
            EffectMode::Blocking => self.blocking,
        }
    }

    /// The members in order.
    pub open spec fn members(&self) -> Seq<EffectMode> {
        let a = if self.deferred { seq![EffectMode::Deferred] } else { Seq::empty() };
        let b = if self.immediate { seq![EffectMode::Immediate] } else { Seq::empty() };
        let c = if self.blocking { seq![EffectMode::Blocking] } else { Seq::empty() };
        a + b + c
    }

    /// The empty set.
    pub fn new() -> (r: Self)
        ensures
            !r.deferred && !r.immediate && !r.blocking,
    {
        EffectModeSet { deferred: false, immediate: false, blocking: false }
    }

    /// Insert a mode; returns whether it was absent before.
    pub fn insert(&mut self, mode: EffectMode) -> (r: bool)
        ensures
            r == !old(self).has(mode),
            final(self).has(mode),
            forall|m: EffectMode| m != mode ==> final(self).has(m) == old(self).has(m),
    {
        match mode {
            EffectMode::Deferred => {
                let r = !self.deferred;
                self.deferred = true;
                r
            },
            EffectMode::Immediate => {
                let r = !self.immediate;
                self.immediate = true;
                r
            },
            EffectMode::Blocking => {
                let r = !self.blocking;
                self.blocking = true;
                r
            },
        }
    }
}

/// Authoring targets that metadata may attach to.
#[derive(Clone, Copy, Debug, PartialEq, Eq, PartialOrd, Ord, Hash)]
pub enum MetadataTarget {
    Block,
    Choice,
    Line,
    Project,
}

/// A set of metadata targets, iterated in `MetadataTarget` order.
#[derive(Clone, Copy, Debug, PartialEq, Eq, Default)]
pub struct MetadataTargetSet {
    pub block: bool,
    pub choice: bool,
    pub line: bool,
    pub project: bool,
}

impl MetadataTargetSet {
    /// Whether the set holds `target`.
    pub open spec fn has(&self, target: MetadataTarget) -> bool {
        match target {
            MetadataTarget::Block => self.block,
            MetadataTarget::Choice => self.choice,
            MetadataTarget::Line => self.line,
            MetadataTarget::Project => self.project,
        }
    }

    /// The members in order.
    pub open spec fn members(&self) -> Seq<MetadataTarget> {
        let a = if self.block { seq![MetadataTarget::Block] } else { Seq::empty() };
        let b = if self.choice { seq![MetadataTarget::Choice] } else { Seq::empty() };
        let c = if self.line { seq![MetadataTarget::Line] } else { Seq::empty() };
        let d = if self.project { seq![MetadataTarget::Project] } else { Seq::empty() };
        a + b + c + d
    }

    /// The empty set.
    pub fn new() -> (r: Self)
        ensures
            !r.block && !r.choice && !r.line && !r.project,
    {
        MetadataTargetSet { block: false, choice: false, line: false, project: false }
    }

    /// Whether the set holds `target`.
    pub fn contains(&self, target: MetadataTarget) -> (r: bool)
        ensures
            r == self.has(target),
    {
        match target {
            MetadataTarget::Block => self.block,
            MetadataTarget::Choice => self.choice,
            MetadataTarget::Line => self.line,
            MetadataTarget::Project => self.project,
        }
    }

    /// Insert a target; returns whether it was absent before.
    pub fn insert(&mut self, target: MetadataTarget) -> (r: bool)
        ensures
            r == !old(self).has(target),
            final(self).has(target),
            forall|t: MetadataTarget| t != target ==> final(self).has(t) == old(self).has(t),
    {
        match target {
            MetadataTarget::Block => {
                let r = !self.block;
                self.block = true;
                r
            },
            MetadataTarget::Choice => {
                let r = !self.choice;
                self.choice = true;
                r
            },
            MetadataTarget::Line => {
                let r = !self.line;
                self.line = true;
                r
            },
            MetadataTarget::Project => {
                let r = !self.project;
                self.project = true;
                r
            },
        }
    }
}

/// Identifier of a schema-owned availability reason.
#[derive(Clone, Debug, PartialEq, Eq)]
pub struct AvailabilityReasonId {
    id: String,
}

impl AvailabilityReasonId {
    /// The identifier text.
    pub closed spec fn text(&self) -> Seq<char> {
        self.id@
    }

    /// An identifier, when the text is an identifier-like schema name.
    pub fn new(id: String) -> (r: Option<Self>)
        ensures
            r.is_some() == crate::manifest::validate::spec_is_manifest_name(id@),
            r matches Some(v) ==> v.text() == id@,
    {
        if crate::manifest::validate::is_manifest_name(id.as_str()) {
            Some(AvailabilityReasonId { id })
        } else {
            None
        }
    }

    /// The identifier text.
    pub fn as_str(&self) -> (r: &str)
        ensures
            r@ == self.text(),
    {
        self.id.as_str()
    }
}

/// Canonical, deterministic schema model consumed by compiler and tooling.
#[derive(Debug)]
pub struct ProjectSchema {
    pub schema_version: u32,
    pub types: StrMap<SchemaTypeDefinition>,
    pub registries: StrMap<RegistryDefinition>,
    pub speakers: StrMap<SpeakerDefinition>,
    pub conditions: StrMap<ConditionDefinition>,
    /// Keyed by availability reason id.
    pub availability_reasons: StrMap<AvailabilityReasonDefinition>,
    pub effects: StrMap<EffectDefinition>,
    pub metadata_domains: StrMap<MetadataDomainDefinition>,
    pub metadata: StrMap<MetadataDefinition>,
    pub projection_queries: StrMap<ProjectionQueryFunctionDefinition>,
    pub presentation_projectors: StrMap<SchemaPresentationProjectorDefinition>,
    pub markup: StrMap<MarkupDefinition>,
    pub producer_metadata: Option<ProducerMetadata>,
}

impl ProjectSchema {
    /// An empty version-1 schema.
    pub fn empty_v1() -> (r: Self)
        ensures
            r.schema_version == 1,
            r.types.entry_seq().len() == 0,
            r.registries.entry_seq().len() == 0,
            r.speakers.entry_seq().len() == 0,
            r.conditions.entry_seq().len() == 0,
            r.availability_reasons.entry_seq().len() == 0,
            r.effects.entry_seq().len() == 0,
            r.metadata_domains.entry_seq().len() == 0,
            r.metadata.entry_seq().len() == 0,
            r.projection_queries.entry_seq().len() == 0,
            r.presentation_projectors.entry_seq().len() == 0,
            r.markup.entry_seq().len() == 0,
            r.producer_metadata.is_none(),
    {
        ProjectSchema {
            schema_version: 1,
            types: StrMap::new(),
            registries: StrMap::new(),
            speakers: StrMap::new(),
            conditions: StrMap::new(),
            availability_reasons: StrMap::new(),
            effects: StrMap::new(),
            metadata_domains: StrMap::new(),
            metadata: StrMap::new(),
            projection_queries: StrMap::new(),
            presentation_projectors: StrMap::new(),
            markup: StrMap::new(),
            producer_metadata: None,
        }
    }

    /// The schema fingerprint of this schema.
    pub fn canonical_fingerprint(&self) -> (r: SchemaFingerprint)
        ensures
            r@ == crate::model::fingerprint::blake3_content_fingerprint(
                crate::model::canonical::schema_bytes(*self),
            ),
    {
        canonical_schema_fingerprint(self)
    }

    /// BLAKE3 content fingerprint of the canonical schema encoding.
    pub fn canonical_content_fingerprint(&self) -> (r: ContentFingerprint)
        ensures
            r@ == crate::model::fingerprint::blake3_content_fingerprint(
                crate::model::canonical::schema_bytes(*self),
            ),
    {
        crate::model::canonical::compute_canonical_fingerprint(self)
    }
}

/// The schema fingerprint: the BLAKE3 content fingerprint of the canonical encoding.
pub fn canonical_schema_fingerprint(schema: &ProjectSchema) -> (r: SchemaFingerprint)
    ensures
        r@ == crate::model::fingerprint::blake3_content_fingerprint(
            crate::model::canonical::schema_bytes(*schema),
        ),
{
    SchemaFingerprint::Fingerprint(schema.canonical_content_fingerprint())
}

/// Schema-level type definitions.
#[derive(Debug)]
pub enum SchemaTypeDefinition {
    Enum(EnumTypeDefinition),
}

/// A closed set of stable string variants.
#[derive(Debug)]
pub struct EnumTypeDefinition {
    pub values: StrSet,
}

/// A type reference used by parameters, metadata, and constraints.
#[derive(Debug, PartialEq, Eq, Hash)]
pub enum SchemaTypeRef {
    String,
    Symbol,
    Int,
    Float,
    Bool,
    Speaker,
    Enum(String),
    Registry(String),
    Array(Box<SchemaTypeRef>),
}

/// Character-level view of a type reference.
pub enum TypeRefView {
    String,
    Symbol,
    Int,
    Float,
    Bool,
    Speaker,
    Enum(Seq<char>),
    Registry(Seq<char>),
    Array(Box<TypeRefView>),
}

impl View for SchemaTypeRef {
    type V = TypeRefView;

    open spec fn view(&self) -> TypeRefView
        decreases self,
    {
        match self {
            SchemaTypeRef::String => TypeRefView::String,
            SchemaTypeRef::Symbol => TypeRefView::Symbol,
            SchemaTypeRef::Int => TypeRefView::Int,
            SchemaTypeRef::Float => TypeRefView::Float,
            SchemaTypeRef::Bool => TypeRefView::Bool,
            SchemaTypeRef::Speaker => TypeRefView::Speaker,
            SchemaTypeRef::Enum(n) => TypeRefView::Enum(n@),
            SchemaTypeRef::Registry(n) => TypeRefView::Registry(n@),
            SchemaTypeRef::Array(inner) => TypeRefView::Array(Box::new((**inner).view())),
        }
    }
}

impl SchemaTypeRef {
    /// A copy of this type reference.
    pub fn copy(&self) -> (r: Self)
        ensures
            r@ == self@,
        decreases self,
    {
        match self {
            SchemaTypeRef::String => SchemaTypeRef::String,
            SchemaTypeRef::Symbol => SchemaTypeRef::Symbol,
            SchemaTypeRef::Int => SchemaTypeRef::Int,
            SchemaTypeRef::Float => SchemaTypeRef::Float,
            SchemaTypeRef::Bool => SchemaTypeRef::Bool,
            SchemaTypeRef::Speaker => SchemaTypeRef::Speaker,
            SchemaTypeRef::Enum(n) => SchemaTypeRef::Enum(crate::text::copy_string(n)),
            SchemaTypeRef::Registry(n) => SchemaTypeRef::Registry(crate::text::copy_string(n)),
            SchemaTypeRef::Array(inner) => SchemaTypeRef::Array(Box::new(inner.copy())),
        }
    }

    /// Whether two type references are the same.
    pub fn same(&self, other: &SchemaTypeRef) -> (r: bool)
        ensures
            r == (self@ == other@),
        decreases self,
    {
        match (self, other) {
            (SchemaTypeRef::String, SchemaTypeRef::String) => true,
            (SchemaTypeRef::Symbol, SchemaTypeRef::Symbol) => true,
            (SchemaTypeRef::Int, SchemaTypeRef::Int) => true,
            (SchemaTypeRef::Float, SchemaTypeRef::Float) => true,
            (SchemaTypeRef::Bool, SchemaTypeRef::Bool) => true,
            (SchemaTypeRef::Speaker, SchemaTypeRef::Speaker) => true,
            (SchemaTypeRef::Enum(a), SchemaTypeRef::Enum(b)) => crate::text::str_eq(
                a.as_str(),
                b.as_str(),
            ),
            (SchemaTypeRef::Registry(a), SchemaTypeRef::Registry(b)) => crate::text::str_eq(
                a.as_str(),
                b.as_str(),
            ),
            (SchemaTypeRef::Array(a), SchemaTypeRef::Array(b)) => {
                let r = a.same(b);
                proof {
                    if (**a)@ == (**b)@ {
                    } else {
                        assert(self@ != other@) by {
                            if self@ == other@ {
                                assert(TypeRefView::Array(Box::new((**a)@)) == TypeRefView::Array(Box::new((**b)@)));
                            }
                        }
                    }
                }
                r
            },
            _ => false,
        }
    }
}

/// A generated snapshot of stable project content IDs.
#[derive(Debug)]
pub struct RegistryDefinition {
    pub values: StrSet,
    pub origin: Option<ProducerOrigin>,
    pub value_origins: StrMap<ProducerOrigin>,
    pub producer_fingerprints: Vec<ProducerFingerprint>,
}

/// A declared speaker ID.
#[derive(Clone, Debug, PartialEq, Eq)]
pub struct SpeakerDefinition {
    pub display_name: Option<String>,
}

/// A named typed parameter.
#[derive(Debug, PartialEq, Eq)]
pub struct ParameterDefinition {
    pub name: String,
    pub type_ref: SchemaTypeRef,
}

/// A declared condition function.
#[derive(Debug)]
pub struct ConditionDefinition {
    pub params: Vec<ParameterDefinition>,
    pub returns: ConditionReturnType,
    pub availability_reason: Option<ConditionAvailabilityReasonMapping>,
}

/// Supported condition return domains.
#[derive(Clone, Debug, PartialEq, Eq)]
pub enum ConditionReturnType {
    Bool,
    Enum(String),
}

/// A schema-owned localisable template for unavailable-choice explanations.
#[derive(Debug)]
pub struct AvailabilityReasonDefinition {
    pub template: String,
    pub params: Vec<ParameterDefinition>,
    pub origin: Option<ProducerOrigin>,
}

/// Default availability reason mapping declared on a boolean condition.
#[derive(Debug)]
pub struct ConditionAvailabilityReasonMapping {
    pub reason: AvailabilityReasonId,
    pub args: StrMap<AvailabilityReasonArgBinding>,
}

/// Binding from an availability reason parameter to a condition argument or literal.
#[derive(Clone, Debug, PartialEq, Eq)]
pub enum AvailabilityReasonArgBinding {
    ConditionParam(String),
    Literal(SchemaLiteralValue),
}

/// Eq-safe schema literal used in canonical schema-owned mappings.
#[derive(Clone, Debug, PartialEq, Eq)]
pub enum SchemaLiteralValue {
    String(String),
    Int(i64),
    /// A finite float, kept as its decimal lexeme.
    Float(String),
    Bool(bool),
}

/// A declared effect request.
#[derive(Debug)]
pub struct EffectDefinition {
    pub modes: EffectModeSet,
    pub params: Vec<ParameterDefinition>,
}

/// A declared metadata key.
#[derive(Debug)]
pub struct MetadataDefinition {
    pub targets: MetadataTargetSet,
    pub type_ref: SchemaTypeRef,
    pub repeatable: bool,
    pub domain: Option<String>,
}

/// A named metadata value domain.
#[derive(Debug)]
pub enum MetadataDomainDefinition {
    Flat(FlatMetadataDomain),
    Contextual(ContextualMetadataDomain),
}

/// A deterministic flat set of valid metadata symbol values.
#[derive(Debug)]
pub struct FlatMetadataDomain {
    pub values: StrSet,
    pub provenance: FlatMetadataProvenance,
}

/// A deterministic context-indexed set of valid metadata symbol values.
#[derive(Debug)]
pub struct ContextualMetadataDomain {
    pub selector: MetadataContextSelector,
    pub values_by_context: StrMap<StrSet>,
    pub missing_context: MissingMetadataContextPolicy,
    pub provenance: ContextualMetadataProvenance,
}

/// The v1 metadata context selector slice.
#[derive(Clone, Debug, PartialEq, Eq, PartialOrd, Ord, Hash)]
pub enum MetadataContextSelector {
    FieldSpeaker,
    MetadataKey(String),
}

/// Policy used when a contextual domain selector cannot resolve context.
#[derive(Clone, Debug, PartialEq, Eq)]
pub enum MissingMetadataContextPolicy {
    Diagnostic,
    Empty,
    Fallback { domain: String },
}

/// A declared inline markup tag.
#[derive(Clone, Copy, Debug, PartialEq, Eq)]
pub struct MarkupDefinition {
    pub requires_closing: bool,
    pub translatable: bool,
    pub allows_nesting: bool,
}

/// A schema-global pure host query available to presentation projectors.
#[derive(Debug)]
pub struct ProjectionQueryFunctionDefinition {
    pub params: Vec<ParameterDefinition>,
    pub returns: SchemaTypeRef,
    pub max_calls_per_event: Option<u32>,
}

/// A schema-owned presentation projector declaration.
#[derive(Debug)]
pub struct SchemaPresentationProjectorDefinition {
    pub candidates: SchemaProjectionSelector,
    pub inputs: Vec<ProjectionInput>,
    pub queries: StrMap<ProjectionQueryDefinition>,
    pub outputs: StrMap<PresentationAffordanceOutputDefinition>,
}

/// Candidate set selected by a schema-owned projector.
#[derive(Debug)]
pub enum SchemaProjectionSelector {
    RuntimeEvent { kind: String },
    MetadataKey { target: MetadataTarget, key: String },
    MetadataSet { target: MetadataTarget, required_keys: Vec<String> },
    AvailabilityReason { reason_id: AvailabilityReasonId },
}

/// A typed projector input.
#[derive(Debug)]
pub struct ProjectionInput {
    pub name: String,
    pub source: SchemaProjectionInputSource,
    pub type_ref: SchemaTypeRef,
    pub required: bool,
}

/// Schema-manifest input sources for presentation projection.
#[derive(Clone, Debug, PartialEq, Eq)]
pub enum SchemaProjectionInputSource {
    EventKind,
    CandidateLineId,
    CandidateChoiceId,
    CandidateEffectRequestId,
    CandidateBlockId,
    CandidateProject,
    CandidateMetadata { key: String, occurrence: MetadataOccurrence },
    AvailabilityReasonArg { name: String },
    Literal(SchemaLiteralValue),
}

/// How a projector reads repeated candidate metadata.
#[derive(Clone, Copy, Debug, PartialEq, Eq)]
pub enum MetadataOccurrence {
    Only,
    First,
    Last,
    Index(u32),
    All,
}

/// A named projector query call.
#[derive(Debug)]
pub struct ProjectionQueryDefinition {
    pub function: String,
    pub args: Vec<ProjectionInputRef>,
}

/// Reference to a projector input or query result.
#[derive(Clone, Debug, PartialEq, Eq)]
pub enum ProjectionInputRef {
    Input { name: String },
    QueryResult { name: String },
}

/// A schema-owned output affordance declaration.
#[derive(Debug)]
pub struct PresentationAffordanceOutputDefinition {
    pub target: ProjectionOutputTarget,
    pub kind: String,
    pub slot: String,
    pub label: Option<PresentationLabelDefinition>,
    pub fields: StrMap<PresentationAffordanceFieldDefinition>,
}

/// Runtime presentation target for an output affordance.
#[derive(Clone, Copy, Debug, PartialEq, Eq)]
pub enum ProjectionOutputTarget {
    Candidate,
    Event,
    Prompt,
}

/// Schema-owned localisable template for presentation labels.
#[derive(Debug)]
pub struct PresentationLabelDefinition {
    pub template_id: String,
    pub source_text: String,
    pub args: StrMap<PresentationLabelArgDefinition>,
}

/// A typed presentation label placeholder binding.
#[derive(Debug)]
pub struct PresentationLabelArgDefinition {
    pub source: ProjectionInputRef,
    pub type_ref: SchemaTypeRef,
}

/// A typed output field binding.
#[derive(Debug)]
pub struct PresentationAffordanceFieldDefinition {
    pub source: PresentationAffordanceFieldSource,
    pub type_ref: SchemaTypeRef,
}

/// Source for a typed output field.
#[derive(Clone, Debug, PartialEq, Eq)]
pub enum PresentationAffordanceFieldSource {
    Input { name: String },
    QueryResult { name: String },
    Literal(SchemaLiteralValue),
}

} // verus!
