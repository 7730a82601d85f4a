//! Name, type reference and selector grammars of schema manifests.
use vstd::prelude::*;
use crate::text::{is_ascii_alnum, is_ascii_alpha};
use crate::diagnostics::{
    appended, diagnostic_is, lemma_appended_none, lemma_appended_push, lemma_appended_trans,
    schema_diagnostic, text_arg, ArgumentView, Diagnostic, DiagnosticView, SourceSpan, SpanView,
};
use crate::model::{
    EffectMode, MetadataContextSelector, MetadataDomainDefinition, MetadataTarget, ProjectSchema,
    SchemaTypeRef, TypeRefView,
};

verus! {

/// An identifier-like schema name: a letter or `_`, then letters, digits,
/// `_`, `.` or `-`.
pub open spec fn spec_is_manifest_name(s: Seq<char>) -> bool {
    s.len() > 0 && (is_ascii_alpha(s[0]) || s[0] == '_') && forall|i: int|
        1 <= i < s.len() ==> is_manifest_name_tail(#[trigger] s[i])
}

/// A character allowed after the first one in a schema name.
pub open spec fn is_manifest_name_tail(c: char) -> bool {
    is_ascii_alnum(c) || c == '_' || c == '.' || c == '-'
}

/// A schema name, spelled out by character class: an ASCII letter of either
/// case or `_` first, then ASCII letters of either case, digits, `_`, `.` or
/// `-`.
pub proof fn lemma_manifest_name_classes(s: Seq<char>)
    ensures
        spec_is_manifest_name(s) <==> {
            &&& s.len() > 0
            &&& ('a' <= s[0] && s[0] <= 'z') || ('A' <= s[0] && s[0] <= 'Z') || s[0] == '_'
            &&& forall|i: int| 1 <= i < s.len() ==> {
                let c = #[trigger] s[i];
                ('a' <= c && c <= 'z') || ('A' <= c && c <= 'Z') || ('0' <= c && c <= '9') || c == '_' || c == '.'
                    || c == '-'
            }
        },
{
}

/// Appending an ASCII letter of either case, a digit, `_`, `.` or `-` to a
/// schema name gives a schema name.
pub proof fn lemma_manifest_name_extend(s: Seq<char>, c: char)
    requires
        spec_is_manifest_name(s),
        ('a' <= c && c <= 'z') || ('A' <= c && c <= 'Z') || ('0' <= c && c <= '9') || c == '_' || c == '.' || c == '-',
    ensures
        spec_is_manifest_name(s.push(c)),
{
    assert forall|i: int| 1 <= i < s.push(c).len() implies is_manifest_name_tail(#[trigger] s.push(c)[i]) by {
        if i < s.len() {
            assert(s.push(c)[i] == s[i]);
        }
    }
}

/// Whether `s` is an identifier-like schema name.
pub fn is_manifest_name_chars(s: &[char]) -> (r: bool)
    ensures
        r == spec_is_manifest_name(s@),
{
    if s.len() == 0 {
        return false;
    }
    let first = s[0];
    if !(crate::text::ascii_alpha(first) || first == '_') {
        return false;
    }
    let mut i: usize = 1;
    while i < s.len()
        invariant
            1 <= i <= s@.len(),
            forall|j: int| 1 <= j < i ==> is_manifest_name_tail(#[trigger] s@[j]),
        decreases s@.len() - i,
    {
        let c = s[i];
        if !(crate::text::ascii_alnum(c) || c == '_' || c == '.' || c == '-') {
            return false;
        }
        i = i + 1;
    }
    true
}

/// Whether `value` is an identifier-like schema name.
pub fn is_manifest_name(value: &str) -> (r: bool)
    ensures
        r == spec_is_manifest_name(value@),
{
    let chars = crate::text::str_chars(value);
    is_manifest_name_chars(&chars)
}


/// The rest of `s` after `prefix`, when `s` starts with it.
pub open spec fn after_prefix(s: Seq<char>, prefix: Seq<char>) -> Option<Seq<char>> {
    if prefix.len() <= s.len() && s.subrange(0, prefix.len() as int) == prefix {
        Some(s.subrange(prefix.len() as int, s.len() as int))
    } else {
        None
    }
}

/// The name after `prefix`, when `s` is `prefix` followed by a schema name.
pub open spec fn prefixed_name(s: Seq<char>, prefix: Seq<char>) -> Option<Seq<char>> {
    match after_prefix(s, prefix) {
        Some(n) => if spec_is_manifest_name(n) {
            Some(n)
        } else {
            None
        },
        None => None,
    }
}

/// Arrays nest at most this deep in a type reference.
pub const MAX_TYPE_REF_ARRAY_DEPTH: usize = 8;

/// The type reference `s` spells, read at array depth `depth`: a scalar
/// name, `enum:NAME`, `registry:NAME`, or `array:` and a type reference.
pub open spec fn type_ref_at(s: Seq<char>, depth: nat) -> Option<TypeRefView>
    decreases 8 - depth,
{
    if s == "string"@ {
        Some(TypeRefView::String)
    } else if s == "symbol"@ {
        Some(TypeRefView::Symbol)
    } else if s == "int"@ {
        Some(TypeRefView::Int)
    } else if s == "float"@ {
        Some(TypeRefView::Float)
    } else if s == "bool"@ {
        Some(TypeRefView::Bool)
    } else if s == "speaker"@ {
        Some(TypeRefView::Speaker)
    } else if prefixed_name(s, "enum:"@) is Some {
        Some(TypeRefView::Enum(prefixed_name(s, "enum:"@)->0))
    } else if prefixed_name(s, "registry:"@) is Some {
        Some(TypeRefView::Registry(prefixed_name(s, "registry:"@)->0))
    } else if after_prefix(s, "array:"@) is Some && depth < 8 {
        match type_ref_at(after_prefix(s, "array:"@)->0, depth + 1) {
            Some(t) => Some(TypeRefView::Array(Box::new(t))),
            None => None,
        }
    } else {
        None
    }
}

/// The scalar type names, read at any array depth: each names its own type.
pub proof fn lemma_scalar_type_names(depth: nat)
    ensures
        type_ref_at("string"@, depth) == Some(TypeRefView::String),
        type_ref_at("symbol"@, depth) == Some(TypeRefView::Symbol),
        type_ref_at("int"@, depth) == Some(TypeRefView::Int),
        type_ref_at("float"@, depth) == Some(TypeRefView::Float),
        type_ref_at("bool"@, depth) == Some(TypeRefView::Bool),
        type_ref_at("speaker"@, depth) == Some(TypeRefView::Speaker),
{
    reveal_strlit("string");
    reveal_strlit("symbol");
    reveal_strlit("int");
    reveal_strlit("float");
    reveal_strlit("bool");
    reveal_strlit("speaker");
    assert("symbol"@[1] != "string"@[1]);
    assert("speaker"@.len() != "string"@.len());
    assert("speaker"@[1] != "symbol"@[1]);
    assert("int"@.len() != "string"@.len());
    assert("float"@.len() != "string"@.len());
    assert("bool"@.len() != "string"@.len());
}

/// `enum:NAME` names an enum, `registry:NAME` a registry and `array:T` an
/// array of `T`, for a schema name `NAME` and a type reference `T` read one
/// level deeper.
pub proof fn lemma_compound_type_names(n: Seq<char>, t: Seq<char>, depth: nat)
    ensures
        spec_is_manifest_name(n) ==> type_ref_at("enum:"@ + n, depth) == Some(TypeRefView::Enum(n)),
        spec_is_manifest_name(n) ==> type_ref_at("registry:"@ + n, depth) == Some(TypeRefView::Registry(n)),
        depth < 8 && type_ref_at(t, depth + 1) is Some ==> type_ref_at("array:"@ + t, depth) == Some(
            TypeRefView::Array(Box::new(type_ref_at(t, depth + 1)->0)),
        ),
{
    reveal_strlit("string");
    reveal_strlit("symbol");
    reveal_strlit("int");
    reveal_strlit("float");
    reveal_strlit("bool");
    reveal_strlit("speaker");
    reveal_strlit("enum:");
    reveal_strlit("registry:");
    reveal_strlit("array:");
    let e = "enum:"@ + n;
    let r = "registry:"@ + n;
    let a = "array:"@ + t;
    if spec_is_manifest_name(n) {
        assert(e[0] == 'e');
        assert(e.subrange(0, 5) =~= "enum:"@);
        assert(e.subrange(5, e.len() as int) =~= n);
        assert(r[0] == 'r');
        assert(r.subrange(0, 1)[0] != "enum:"@[0]);
        assert(r.subrange(0, 9) =~= "registry:"@);
        assert(r.subrange(9, r.len() as int) =~= n);
    }
    assert(a[0] == 'a');
    if 5 <= a.len() {
        assert(a.subrange(0, 5)[0] != "enum:"@[0]);
    }
    if 9 <= a.len() {
        assert(a.subrange(0, 9)[0] != "registry:"@[0]);
    }
    assert(a.subrange(0, 6) =~= "array:"@);
    assert(a.subrange(6, a.len() as int) =~= t);
}

/// View of an optional type reference.
pub open spec fn opt_type_view(o: Option<SchemaTypeRef>) -> Option<TypeRefView> {
    match o {
        Some(t) => Some(t@),
        None => None,
    }
}

fn parse_type_ref_at_depth(value: &str, depth: usize) -> (r: Option<SchemaTypeRef>)
    requires
        depth <= 8,
    ensures
        opt_type_view(r) == type_ref_at(value@, depth as nat),
    decreases 8 - depth,
{
    if crate::text::str_eq(value, "string") {
        return Some(SchemaTypeRef::String);
    }
    if crate::text::str_eq(value, "symbol") {
        return Some(SchemaTypeRef::Symbol);
    }
    if crate::text::str_eq(value, "int") {
        return Some(SchemaTypeRef::Int);
    }
    if crate::text::str_eq(value, "float") {
        return Some(SchemaTypeRef::Float);
    }
    if crate::text::str_eq(value, "bool") {
        return Some(SchemaTypeRef::Bool);
    }
    if crate::text::str_eq(value, "speaker") {
        return Some(SchemaTypeRef::Speaker);
    }
    if let Some(name) = crate::text::strip_prefix(value, "enum:") {
        if is_manifest_name(name) {
            return Some(SchemaTypeRef::Enum(crate::text::owned(name)));
        }
    }
    if let Some(name) = crate::text::strip_prefix(value, "registry:") {
        if is_manifest_name(name) {
            return Some(SchemaTypeRef::Registry(crate::text::owned(name)));
        }
    }
    if let Some(inner) = crate::text::strip_prefix(value, "array:") {
        if depth < MAX_TYPE_REF_ARRAY_DEPTH {
            return match parse_type_ref_at_depth(inner, depth + 1) {
                Some(t) => Some(SchemaTypeRef::Array(Box::new(t))),
                None => None,
            };
        }
    }
    None
}

/// Parse a manifest type reference.
pub fn parse_type_ref(value: &str) -> (r: Option<SchemaTypeRef>)
    ensures
        opt_type_view(r) == type_ref_at(value@, 0),
{
    parse_type_ref_at_depth(value, 0)
}

/// The context selector `s` spells: `field:speaker` or `metadata:NAME`.
pub open spec fn context_selector_of(s: Seq<char>) -> Option<Option<Seq<char>>> {
    if s == "field:speaker"@ {
        Some(None)
    } else {
        match prefixed_name(s, "metadata:"@) {
            Some(n) => Some(Some(n)),
            None => None,
        }
    }
}

/// `field:speaker` selects by speaker, and `metadata:NAME`, for a schema
/// name `NAME`, selects by that metadata key.
pub proof fn lemma_selector_names(n: Seq<char>)
    ensures
        context_selector_of("field:speaker"@) == Some(None::<Seq<char>>),
        spec_is_manifest_name(n) ==> context_selector_of("metadata:"@ + n) == Some(Some(n)),
{
    reveal_strlit("field:speaker");
    reveal_strlit("metadata:");
    let s = "metadata:"@ + n;
    if spec_is_manifest_name(n) {
        assert(s[0] != "field:speaker"@[0]);
        assert(s.subrange(0, 9) =~= "metadata:"@);
        assert(s.subrange(9, s.len() as int) =~= n);
    }
}

/// View of a context selector: `None` for the speaker field, else the metadata key.
pub open spec fn selector_view(s: MetadataContextSelector) -> Option<Seq<char>> {
    match s {
        MetadataContextSelector::FieldSpeaker => None,
        MetadataContextSelector::MetadataKey(k) => Some(k@),
    }
}

/// Parse a contextual metadata domain selector.
pub fn parse_metadata_context_selector(value: &str) -> (r: Option<MetadataContextSelector>)
    ensures
        match r {
            Some(sel) => context_selector_of(value@) == Some(selector_view(sel)),
            None => context_selector_of(value@) is None,
        },
{
    if crate::text::str_eq(value, "field:speaker") {
        return Some(MetadataContextSelector::FieldSpeaker);
    }
    match crate::text::strip_prefix(value, "metadata:") {
        Some(name) => {
            if is_manifest_name(name) {
                Some(MetadataContextSelector::MetadataKey(crate::text::owned(name)))
            } else {
                None
            }
        },
        None => None,
    }
}

/// Parse an `enum:NAME` condition return type into the enum name.
pub fn parse_enum_return(value: &str) -> (r: Option<String>)
    ensures
        match r {
            Some(n) => prefixed_name(value@, "enum:"@) == Some(n@),
            None => prefixed_name(value@, "enum:"@) is None,
        },
{
    match crate::text::strip_prefix(value, "enum:") {
        Some(name) => {
            if is_manifest_name(name) {
                Some(crate::text::owned(name))
            } else {
                None
            }
        },
        None => None,
    }
}

/// The effect mode `s` names.
pub open spec fn effect_mode_of(s: Seq<char>) -> Option<EffectMode> {
    if s == "deferred"@ {
        Some(EffectMode::Deferred)
    } else if s == "immediate"@ {
        Some(EffectMode::Immediate)
    } else if s == "blocking"@ {
        Some(EffectMode::Blocking)
    } else {
        None
    }
}

/// Each effect mode and metadata target name reads as the mode or target it
/// names, and every mode and target is written with its own name.
pub proof fn lemma_mode_and_target_names()
    ensures
        effect_mode_of("deferred"@) == Some(EffectMode::Deferred),
        effect_mode_of("immediate"@) == Some(EffectMode::Immediate),
        effect_mode_of("blocking"@) == Some(EffectMode::Blocking),
        metadata_target_of("block"@) == Some(MetadataTarget::Block),
        metadata_target_of("choice"@) == Some(MetadataTarget::Choice),
        metadata_target_of("line"@) == Some(MetadataTarget::Line),
        metadata_target_of("project"@) == Some(MetadataTarget::Project),
        crate::model::canonical::effect_mode_text(EffectMode::Deferred) == "deferred"@,
        crate::model::canonical::effect_mode_text(EffectMode::Immediate) == "immediate"@,
        crate::model::canonical::effect_mode_text(EffectMode::Blocking) == "blocking"@,
        crate::model::canonical::metadata_target_text(MetadataTarget::Block) == "block"@,
        crate::model::canonical::metadata_target_text(MetadataTarget::Choice) == "choice"@,
        crate::model::canonical::metadata_target_text(MetadataTarget::Line) == "line"@,
        crate::model::canonical::metadata_target_text(MetadataTarget::Project) == "project"@,
{
    reveal_strlit("deferred");
    reveal_strlit("immediate");
    reveal_strlit("blocking");
    reveal_strlit("block");
    reveal_strlit("choice");
    reveal_strlit("line");
    reveal_strlit("project");
    assert("immediate"@[0] != "deferred"@[0]);
    assert("blocking"@[0] != "deferred"@[0]);
    assert("blocking"@[0] != "immediate"@[0]);
    assert("choice"@[0] != "block"@[0]);
    assert("line"@[0] != "block"@[0] && "line"@[0] != "choice"@[0]);
    assert("project"@[0] != "block"@[0] && "project"@[0] != "choice"@[0] && "project"@[0] != "line"@[0]);
}

/// Parse an effect mode name.
pub fn parse_effect_mode(value: &str) -> (r: Option<EffectMode>)
    ensures
        r == effect_mode_of(value@),
{
    if crate::text::str_eq(value, "deferred") {
        Some(EffectMode::Deferred)
    } else if crate::text::str_eq(value, "immediate") {
        Some(EffectMode::Immediate)
    } else if crate::text::str_eq(value, "blocking") {
        Some(EffectMode::Blocking)
    } else {
        None
    }
}

/// The metadata target `s` names.
pub open spec fn metadata_target_of(s: Seq<char>) -> Option<MetadataTarget> {
    if s == "block"@ {
        Some(MetadataTarget::Block)
    } else if s == "choice"@ {
        Some(MetadataTarget::Choice)
    } else if s == "line"@ {
        Some(MetadataTarget::Line)
    } else if s == "project"@ {
        Some(MetadataTarget::Project)
    } else {
        None
    }
}

/// Parse a metadata target name.
pub fn parse_metadata_target(value: &str) -> (r: Option<MetadataTarget>)
    ensures
        r == metadata_target_of(value@),
{
    if crate::text::str_eq(value, "block") {
        Some(MetadataTarget::Block)
    } else if crate::text::str_eq(value, "choice") {
        Some(MetadataTarget::Choice)
    } else if crate::text::str_eq(value, "line") {
        Some(MetadataTarget::Line)
    } else if crate::text::str_eq(value, "project") {
        Some(MetadataTarget::Project)
    } else {
        None
    }
}

// ---------------------------------------------------------------------------
// Diagnostics of the shape checks.

/// The diagnostic for a repeated definition.
pub open spec fn duplicate_view(kind: Seq<char>, name: Seq<char>, span: SpanView) -> DiagnosticView {
    DiagnosticView {
        code: "RECITE_SCHEMA003"@,
        presentation_id: "diagnostic-schema-003-duplicate-definition"@,
        message: "duplicate "@ + kind + " definition '"@ + name + "'"@,
        span,
        arguments: seq![("kind"@, ArgumentView::Text(kind)), ("name"@, ArgumentView::Text(name))],
    }
}

/// Report a repeated definition.
pub fn duplicate_definition(diagnostics: &mut Vec<Diagnostic>, kind: &str, name: &str, span: SourceSpan)
    ensures
        final(diagnostics)@ == old(diagnostics)@.push(final(diagnostics)@.last()),
        diagnostic_is(final(diagnostics)@.last(), duplicate_view(kind@, name@, span@)),
{
    let mut message = crate::text::concat3("duplicate ", kind, " definition '");
    crate::text::push_text(&mut message, name);
    crate::text::push_text(&mut message, "'");
    let args = vec![text_arg("kind", kind), text_arg("name", name)];
    let d = schema_diagnostic(
        crate::diagnostics::duplicate_definition_code(),
        "diagnostic-schema-003-duplicate-definition",
        message,
        span,
        args,
    );
    proof {
        assert(crate::diagnostics::arguments_view(args@) =~= seq![
            ("kind"@, ArgumentView::Text(kind@)),
            ("name"@, ArgumentView::Text(name@)),
        ]);
    }
    diagnostics.push(d);
}

/// The diagnostic for an empty required value.
pub open spec fn empty_value_view(field: Seq<char>, span: SpanView) -> DiagnosticView {
    DiagnosticView {
        code: "RECITE_SCHEMA001"@,
        presentation_id: "diagnostic-schema-001-empty-value"@,
        message: field + " must not be empty"@,
        span,
        arguments: seq![("field"@, ArgumentView::Text(field))],
    }
}

/// Check that `value` is not empty, reporting it when it is.
pub fn validate_non_empty_string(
    diagnostics: &mut Vec<Diagnostic>,
    field: &str,
    value: &str,
    span: SourceSpan,
) -> (r: bool)
    ensures
        r == (value@.len() > 0),
        r ==> final(diagnostics)@ == old(diagnostics)@,
        !r ==> final(diagnostics)@ == old(diagnostics)@.push(final(diagnostics)@.last())
            && diagnostic_is(final(diagnostics)@.last(), empty_value_view(field@, span@)),
{
    if value.unicode_len() == 0 {
        let args = vec![text_arg("field", field)];
        let d = schema_diagnostic(
            crate::diagnostics::malformed_shape(),
            "diagnostic-schema-001-empty-value",
            crate::text::concat2(field, " must not be empty"),
            span,
            args,
        );
        proof {
            assert(crate::diagnostics::arguments_view(args@) =~= seq![("field"@, ArgumentView::Text(field@))]);
        }
        diagnostics.push(d);
        return false;
    }
    true
}

/// The diagnostic for a value that is not a schema name.
pub open spec fn invalid_name_view(field: Seq<char>, span: SpanView) -> DiagnosticView {
    DiagnosticView {
        code: "RECITE_SCHEMA001"@,
        presentation_id: "diagnostic-schema-001-invalid-name"@,
        message: field + " must be an identifier-like schema name"@,
        span,
        arguments: seq![("field"@, ArgumentView::Text(field))],
    }
}

/// Check that `value` is a schema name, reporting it when it is not.
pub fn validate_manifest_name(
    diagnostics: &mut Vec<Diagnostic>,
    field: &str,
    value: &str,
    span: SourceSpan,
) -> (r: bool)
    ensures
        r == spec_is_manifest_name(value@),
        r ==> final(diagnostics)@ == old(diagnostics)@,
        !r ==> final(diagnostics)@ == old(diagnostics)@.push(final(diagnostics)@.last())
            && diagnostic_is(final(diagnostics)@.last(), invalid_name_view(field@, span@)),
{
    if is_manifest_name(value) {
        return true;
    }
    let args = vec![text_arg("field", field)];
    let d = schema_diagnostic(
        crate::diagnostics::malformed_shape(),
        "diagnostic-schema-001-invalid-name",
        crate::text::concat2(field, " must be an identifier-like schema name"),
        span,
        args,
    );
    proof {
        assert(crate::diagnostics::arguments_view(args@) =~= seq![("field"@, ArgumentView::Text(field@))]);
    }
    diagnostics.push(d);
    false
}


// ---------------------------------------------------------------------------
// References checked once the whole manifest is lowered.

/// A type reference to check once all types and registries are known.
#[derive(Debug)]
pub struct PendingTypeReference {
    pub owner: String,
    pub type_ref: SchemaTypeRef,
    pub span: SourceSpan,
}

/// A metadata domain reference to check once all domains are known.
#[derive(Debug)]
pub struct PendingDomainReference {
    pub owner: String,
    pub domain: String,
    pub require_flat: bool,
    pub span: SourceSpan,
}

/// The enum (`true`) or registry (`false`) name that `t` needs and `schema` lacks.
pub open spec fn missing_type_target(schema: ProjectSchema, t: TypeRefView) -> Option<(bool, Seq<char>)>
    decreases t,
{
    match t {
        TypeRefView::Enum(n) => if !schema.types.has(n) {
            Some((true, n))
        } else {
            None
        },
        TypeRefView::Registry(n) => if !schema.registries.has(n) {
            Some((false, n))
        } else {
            None
        },
        TypeRefView::Array(inner) => missing_type_target(schema, *inner),
        _ => None,
    }
}

/// The diagnostic for an unknown enum or registry.
pub open spec fn unknown_type_view(owner: Seq<char>, target: (bool, Seq<char>), span: SpanView) -> DiagnosticView {
    if target.0 {
        DiagnosticView {
            code: "RECITE_SCHEMA004"@,
            presentation_id: "diagnostic-schema-004-unknown-enum"@,
            message: owner + " references unknown enum type '"@ + target.1 + "'"@,
            span,
            arguments: seq![("owner"@, ArgumentView::Text(owner)), ("name"@, ArgumentView::Text(target.1))],
        }
    } else {
        DiagnosticView {
            code: "RECITE_SCHEMA004"@,
            presentation_id: "diagnostic-schema-004-unknown-registry"@,
            message: owner + " references unknown registry '"@ + target.1 + "'"@,
            span,
            arguments: seq![("owner"@, ArgumentView::Text(owner)), ("name"@, ArgumentView::Text(target.1))],
        }
    }
}

/// The diagnostics for one pending type reference.
pub open spec fn type_ref_diagnostics(schema: ProjectSchema, p: PendingTypeReference) -> Seq<DiagnosticView> {
    match missing_type_target(schema, p.type_ref@) {
        Some(t) => seq![unknown_type_view(p.owner@, t, p.span@)],
        None => Seq::empty(),
    }
}

/// The diagnostics for pending type references, in order.
pub open spec fn type_refs_diagnostics(schema: ProjectSchema, ps: Seq<PendingTypeReference>) -> Seq<
    DiagnosticView,
>
    decreases ps.len(),
{
    if ps.len() == 0 {
        Seq::empty()
    } else {
        type_refs_diagnostics(schema, ps.drop_last()) + type_ref_diagnostics(schema, ps.last())
    }
}

fn validate_type_ref(
    schema: &ProjectSchema,
    diagnostics: &mut Vec<Diagnostic>,
    owner: &String,
    type_ref: &SchemaTypeRef,
    span: &SourceSpan,
)
    ensures
        appended(
            old(diagnostics)@,
            final(diagnostics)@,
            match missing_type_target(*schema, type_ref@) {
                Some(t) => seq![unknown_type_view(owner@, t, span@)],
                None => Seq::empty(),
            },
        ),
    decreases type_ref,
{
    proof {
        lemma_appended_none(diagnostics@);
    }
    match type_ref {
        SchemaTypeRef::Enum(name) => {
            if !schema.types.contains_key(name.as_str()) {
                let mut message = crate::text::concat3(owner.as_str(), " references unknown enum type '", name.as_str());
                crate::text::push_text(&mut message, "'");
                let args = vec![text_arg("owner", owner.as_str()), text_arg("name", name.as_str())];
                let d = schema_diagnostic(
                    crate::diagnostics::invalid_type_reference(),
                    "diagnostic-schema-004-unknown-enum",
                    message,
                    span.copy(),
                    args,
                );
                proof {
                    assert(crate::diagnostics::arguments_view(args@) =~= seq![
                        ("owner"@, ArgumentView::Text(owner@)),
                        ("name"@, ArgumentView::Text(name@)),
                    ]);
                    lemma_appended_push(diagnostics@, diagnostics@, Seq::empty(), d, unknown_type_view(owner@, (true, name@), span@));
                    assert(Seq::<DiagnosticView>::empty().push(unknown_type_view(owner@, (true, name@), span@)) =~= seq![unknown_type_view(owner@, (true, name@), span@)]);
                }
                diagnostics.push(d);
            }
        },
        SchemaTypeRef::Registry(name) => {
            if !schema.registries.contains_key(name.as_str()) {
                let mut message = crate::text::concat3(owner.as_str(), " references unknown registry '", name.as_str());
                crate::text::push_text(&mut message, "'");
                let args = vec![text_arg("owner", owner.as_str()), text_arg("name", name.as_str())];
                let d = schema_diagnostic(
                    crate::diagnostics::invalid_type_reference(),
                    "diagnostic-schema-004-unknown-registry",
                    message,
                    span.copy(),
                    args,
                );
                proof {
                    assert(crate::diagnostics::arguments_view(args@) =~= seq![
                        ("owner"@, ArgumentView::Text(owner@)),
                        ("name"@, ArgumentView::Text(name@)),
                    ]);
                    lemma_appended_push(diagnostics@, diagnostics@, Seq::empty(), d, unknown_type_view(owner@, (false, name@), span@));
                    assert(Seq::<DiagnosticView>::empty().push(unknown_type_view(owner@, (false, name@), span@)) =~= seq![unknown_type_view(owner@, (false, name@), span@)]);
                }
                diagnostics.push(d);
            }
        },
        SchemaTypeRef::Array(inner) => {
            validate_type_ref(schema, diagnostics, owner, inner, span);
        },
        _ => {},
    }
}

/// Report each pending type reference that names an undeclared enum or registry.
pub fn validate_type_references(
    schema: &ProjectSchema,
    pending_type_refs: &Vec<PendingTypeReference>,
    diagnostics: &mut Vec<Diagnostic>,
)
    ensures
        appended(old(diagnostics)@, final(diagnostics)@, type_refs_diagnostics(*schema, pending_type_refs@)),
{
    let ghost start = diagnostics@;
    proof {
        lemma_appended_none(start);
        assert(pending_type_refs@.take(0) =~= Seq::<PendingTypeReference>::empty());
    }
    let mut i: usize = 0;
    while i < pending_type_refs.len()
        invariant
            i <= pending_type_refs@.len(),
            appended(start, diagnostics@, type_refs_diagnostics(*schema, pending_type_refs@.take(i as int))),
        decreases pending_type_refs@.len() - i,
    {
        let p = &pending_type_refs[i];
        let ghost mid = diagnostics@;
        validate_type_ref(schema, diagnostics, &p.owner, &p.type_ref, &p.span);
        proof {
            lemma_appended_trans(start, mid, diagnostics@, type_refs_diagnostics(*schema, pending_type_refs@.take(i as int)), type_ref_diagnostics(*schema, *p));
            assert(pending_type_refs@.take(i + 1).drop_last() =~= pending_type_refs@.take(i as int));
        }
        i = i + 1;
    }
    proof {
        assert(pending_type_refs@.take(i as int) =~= pending_type_refs@);
    }
}

/// The diagnostics for one pending domain reference.
pub open spec fn domain_ref_diagnostics(schema: ProjectSchema, p: PendingDomainReference) -> Seq<DiagnosticView> {
    match schema.metadata_domains.spec_get(p.domain@) {
        Some(MetadataDomainDefinition::Flat(_)) => Seq::empty(),
        Some(MetadataDomainDefinition::Contextual(_)) => if p.require_flat {
            seq![DiagnosticView {
                code: "RECITE_SCHEMA004"@,
                presentation_id: "diagnostic-schema-004-contextual-domain-for-flat"@,
                message: p.owner@ + " references contextual metadata domain '"@ + p.domain@
                    + "', but a flat domain is required"@,
                span: p.span@,
                arguments: seq![("owner"@, ArgumentView::Text(p.owner@)), ("domain"@, ArgumentView::Text(p.domain@))],
            }]
        } else {
            Seq::empty()
        },
        None => seq![DiagnosticView {
            code: "RECITE_SCHEMA004"@,
            presentation_id: "diagnostic-schema-004-unknown-metadata-domain"@,
            message: p.owner@ + " references unknown metadata domain '"@ + p.domain@ + "'"@,
            span: p.span@,
            arguments: seq![("owner"@, ArgumentView::Text(p.owner@)), ("domain"@, ArgumentView::Text(p.domain@))],
        }],
    }
}

/// The diagnostics for pending domain references, in order.
pub open spec fn domain_refs_diagnostics(schema: ProjectSchema, ps: Seq<PendingDomainReference>) -> Seq<
    DiagnosticView,
>
    decreases ps.len(),
{
    if ps.len() == 0 {
        Seq::empty()
    } else {
        domain_refs_diagnostics(schema, ps.drop_last()) + domain_ref_diagnostics(schema, ps.last())
    }
}

fn validate_domain_reference(
    schema: &ProjectSchema,
    pending: &PendingDomainReference,
    diagnostics: &mut Vec<Diagnostic>,
)
    ensures
        appended(old(diagnostics)@, final(diagnostics)@, domain_ref_diagnostics(*schema, *pending)),
{
    proof {
        lemma_appended_none(diagnostics@);
    }
    let (present, flat) = match schema.metadata_domains.get(pending.domain.as_str()) {
        Some(MetadataDomainDefinition::Flat(_)) => (true, true),
        Some(MetadataDomainDefinition::Contextual(_)) => (true, false),
        None => (false, false),
    };
    if present && !flat && pending.require_flat {
        let mut message = crate::text::concat3(
            pending.owner.as_str(),
            " references contextual metadata domain '",
            pending.domain.as_str(),
        );
        crate::text::push_text(&mut message, "', but a flat domain is required");
        let args = vec![text_arg("owner", pending.owner.as_str()), text_arg("domain", pending.domain.as_str())];
        let d = schema_diagnostic(
            crate::diagnostics::invalid_type_reference(),
            "diagnostic-schema-004-contextual-domain-for-flat",
            message,
            pending.span.copy(),
            args,
        );
        proof {
            assert(crate::diagnostics::arguments_view(args@) =~= seq![
                ("owner"@, ArgumentView::Text(pending.owner@)),
                ("domain"@, ArgumentView::Text(pending.domain@)),
            ]);
            let v = domain_ref_diagnostics(*schema, *pending)[0];
            lemma_appended_push(diagnostics@, diagnostics@, Seq::empty(), d, v);
            assert(Seq::<DiagnosticView>::empty().push(v) =~= domain_ref_diagnostics(*schema, *pending));
        }
        diagnostics.push(d);
    } else if !present {
        let mut message = crate::text::concat3(
            pending.owner.as_str(),
            " references unknown metadata domain '",
            pending.domain.as_str(),
        );
        crate::text::push_text(&mut message, "'");
        let args = vec![text_arg("owner", pending.owner.as_str()), text_arg("domain", pending.domain.as_str())];
        let d = schema_diagnostic(
            crate::diagnostics::invalid_type_reference(),
            "diagnostic-schema-004-unknown-metadata-domain",
            message,
            pending.span.copy(),
            args,
        );
        proof {
            assert(crate::diagnostics::arguments_view(args@) =~= seq![
                ("owner"@, ArgumentView::Text(pending.owner@)),
                ("domain"@, ArgumentView::Text(pending.domain@)),
            ]);
            let v = domain_ref_diagnostics(*schema, *pending)[0];
            lemma_appended_push(diagnostics@, diagnostics@, Seq::empty(), d, v);
            assert(Seq::<DiagnosticView>::empty().push(v) =~= domain_ref_diagnostics(*schema, *pending));
        }
        diagnostics.push(d);
    }
}

/// Report each pending domain reference that names an undeclared domain, or
/// a contextual domain where a flat one is required.
pub fn validate_domain_references(
    schema: &ProjectSchema,
    pending_domain_refs: &Vec<PendingDomainReference>,
    diagnostics: &mut Vec<Diagnostic>,
)
    ensures
        appended(old(diagnostics)@, final(diagnostics)@, domain_refs_diagnostics(*schema, pending_domain_refs@)),
{
    let ghost start = diagnostics@;
    proof {
        lemma_appended_none(start);
        assert(pending_domain_refs@.take(0) =~= Seq::<PendingDomainReference>::empty());
    }
    let mut i: usize = 0;
    while i < pending_domain_refs.len()
        invariant
            i <= pending_domain_refs@.len(),
            appended(start, diagnostics@, domain_refs_diagnostics(*schema, pending_domain_refs@.take(i as int))),
        decreases pending_domain_refs@.len() - i,
    {
        let p = &pending_domain_refs[i];
        let ghost mid = diagnostics@;
        validate_domain_reference(schema, p, diagnostics);
        proof {
            lemma_appended_trans(start, mid, diagnostics@, domain_refs_diagnostics(*schema, pending_domain_refs@.take(i as int)), domain_ref_diagnostics(*schema, *p));
            assert(pending_domain_refs@.take(i + 1).drop_last() =~= pending_domain_refs@.take(i as int));
        }
        i = i + 1;
    }
    proof {
        assert(pending_domain_refs@.take(i as int) =~= pending_domain_refs@);
    }
}

} // verus!
