//! Lowering of type references and typed parameter lists.
use vstd::prelude::*;
use crate::collections::StrSet;
use crate::diagnostics::{
    lemma_reported_none, lemma_reported_push, lemma_reported_trans, problem_of, reported, reports,
    schema_diagnostic, text_arg, ArgumentView, Diagnostic, Problem, SourceSpan,
};
use crate::manifest::raw::RawParameterDefinition;
use crate::manifest::spans::ManifestSpans;
use crate::manifest::validate::{
    empty_value_view, invalid_name_view, opt_type_view, parse_type_ref, spec_is_manifest_name,
    type_ref_at, validate_manifest_name, validate_non_empty_string, PendingTypeReference,
};
use crate::model::{ParameterDefinition, SchemaTypeRef, TypeRefView};

verus! {

/// Where an invalid type reference was written, for its diagnostic.
pub enum TypeReferenceContext {
    Metadata { metadata: String },
    Parameter { parameter: String },
    ProjectionInput { projector: String, input: String },
    ProjectionOutput { projector: String, output: String, binding: String },
    QueryReturn { function: String },
}

/// Presentation id and leading arguments of an invalid type reference diagnostic.
pub open spec fn type_context_report(c: TypeReferenceContext) -> (Seq<char>, Seq<(Seq<char>, ArgumentView)>) {
    match c {
        TypeReferenceContext::Metadata { metadata } => (
            "diagnostic-schema-004-invalid-metadata-type"@,
            seq![("metadata"@, ArgumentView::Text(metadata@))],
        ),
        TypeReferenceContext::Parameter { parameter } => (
            "diagnostic-schema-004-invalid-parameter-type"@,
            seq![("parameter"@, ArgumentView::Text(parameter@))],
        ),
        TypeReferenceContext::ProjectionInput { projector, input } => (
            "diagnostic-schema-004-invalid-projection-input-type"@,
            seq![("projector"@, ArgumentView::Text(projector@)), ("input"@, ArgumentView::Text(input@))],
        ),
        TypeReferenceContext::ProjectionOutput { projector, output, binding } => (
            "diagnostic-schema-004-invalid-projection-output-type"@,
            seq![
                ("projector"@, ArgumentView::Text(projector@)),
                ("output"@, ArgumentView::Text(output@)),
                ("binding"@, ArgumentView::Text(binding@)),
            ],
        ),
        TypeReferenceContext::QueryReturn { function } => (
            "diagnostic-schema-004-invalid-query-return-type"@,
            seq![("function"@, ArgumentView::Text(function@))],
        ),
    }
}

/// The problem of a type reference that does not parse.
pub open spec fn invalid_type_problem(c: TypeReferenceContext, value: Seq<char>, message: Seq<char>) -> Problem {
    Problem {
        code: "RECITE_SCHEMA004"@,
        presentation_id: type_context_report(c).0,
        message,
        arguments: type_context_report(c).1.push(("type_ref"@, ArgumentView::Text(value))),
    }
}

/// The type a reference lowers to: the parsed type, else `string`.
pub open spec fn lowered_type(value: Seq<char>) -> TypeRefView {
    match type_ref_at(value, 0) {
        Some(t) => t,
        None => TypeRefView::String,
    }
}

/// Parse a type reference, reporting one that does not parse; an invalid
/// reference lowers to `string` and is marked invalid.
pub fn lower_type_reference_with_context(
    diagnostics: &mut Vec<Diagnostic>,
    value: &str,
    type_ref_span: SourceSpan,
    invalid_message: String,
    context: TypeReferenceContext,
) -> (r: (SchemaTypeRef, SourceSpan, bool))
    ensures
        r.0@ == lowered_type(value@),
        r.1@ == type_ref_span@,
        r.2 == type_ref_at(value@, 0) is Some,
        r.2 ==> final(diagnostics)@ == old(diagnostics)@,
        !r.2 ==> reported(
            old(diagnostics)@,
            final(diagnostics)@,
            seq![invalid_type_problem(context, value@, invalid_message@)],
        ),
{
    match parse_type_ref(value) {
        Some(t) => (t, type_ref_span, true),
        None => {
            let ghost c = context;
            let (id, mut args) = match context {
                TypeReferenceContext::Metadata { metadata } => (
                    "diagnostic-schema-004-invalid-metadata-type",
                    vec![text_arg("metadata", metadata.as_str())],
                ),
                TypeReferenceContext::Parameter { parameter } => (
                    "diagnostic-schema-004-invalid-parameter-type",
                    vec![text_arg("parameter", parameter.as_str())],
                ),
                TypeReferenceContext::ProjectionInput { projector, input } => (
                    "diagnostic-schema-004-invalid-projection-input-type",
                    vec![text_arg("projector", projector.as_str()), text_arg("input", input.as_str())],
                ),
                TypeReferenceContext::ProjectionOutput { projector, output, binding } => (
                    "diagnostic-schema-004-invalid-projection-output-type",
                    vec![
                        text_arg("projector", projector.as_str()),
                        text_arg("output", output.as_str()),
                        text_arg("binding", binding.as_str()),
                    ],
                ),
                TypeReferenceContext::QueryReturn { function } => (
                    "diagnostic-schema-004-invalid-query-return-type",
                    vec![text_arg("function", function.as_str())],
                ),
            };
            proof {
                assert(id@ == type_context_report(c).0);
                assert(crate::diagnostics::arguments_view(args@) =~= type_context_report(c).1);
            }
            let ghost before_args = args@;
            args.push(text_arg("type_ref", value));
            let span = type_ref_span.copy();
            let d = schema_diagnostic(crate::diagnostics::invalid_type_reference(), id, invalid_message, type_ref_span, args);
            proof {
                assert(crate::diagnostics::arguments_view(args@) =~= crate::diagnostics::arguments_view(before_args).push(("type_ref"@, ArgumentView::Text(value@))));
                lemma_reported_none(diagnostics@);
                lemma_reported_push(diagnostics@, diagnostics@, Seq::empty(), d, invalid_type_problem(c, value@, invalid_message@));
                assert(Seq::<Problem>::empty().push(invalid_type_problem(c, value@, invalid_message@)) =~= seq![invalid_type_problem(c, value@, invalid_message@)]);
            }
            diagnostics.push(d);
            (SchemaTypeRef::String, span, false)
        },
    }
}

/// The text that spells a type reference.
pub open spec fn type_ref_text(t: TypeRefView) -> Seq<char>
    decreases t,
{
    match t {
        TypeRefView::String => "string"@,
        TypeRefView::Symbol => "symbol"@,
        TypeRefView::Int => "int"@,
        TypeRefView::Float => "float"@,
        TypeRefView::Bool => "bool"@,
        TypeRefView::Speaker => "speaker"@,
        TypeRefView::Enum(n) => "enum:"@ + n,
        TypeRefView::Registry(n) => "registry:"@ + n,
        TypeRefView::Array(inner) => "array:"@ + type_ref_text(*inner),
    }
}

/// The text that spells a type reference.
pub fn type_ref_name(t: &SchemaTypeRef) -> (r: String)
    ensures
        r@ == type_ref_text(t@),
    decreases t,
{
    match t {
        SchemaTypeRef::String => String::from_str("string"),
        SchemaTypeRef::Symbol => String::from_str("symbol"),
        SchemaTypeRef::Int => String::from_str("int"),
        SchemaTypeRef::Float => String::from_str("float"),
        SchemaTypeRef::Bool => String::from_str("bool"),
        SchemaTypeRef::Speaker => String::from_str("speaker"),
        SchemaTypeRef::Enum(n) => crate::text::concat2("enum:", n.as_str()),
        SchemaTypeRef::Registry(n) => crate::text::concat2("registry:", n.as_str()),
        SchemaTypeRef::Array(inner) => {
            let s = type_ref_name(inner);
            crate::text::concat2("array:", s.as_str())
        },
    }
}

/// The scalar types print as their own names.
pub proof fn lemma_scalar_type_texts()
    ensures
        type_ref_text(TypeRefView::String) == "string"@,
        type_ref_text(TypeRefView::Symbol) == "symbol"@,
        type_ref_text(TypeRefView::Int) == "int"@,
        type_ref_text(TypeRefView::Float) == "float"@,
        type_ref_text(TypeRefView::Bool) == "bool"@,
        type_ref_text(TypeRefView::Speaker) == "speaker"@,
{
}

/// Enum, registry and array references print with their prefixes.
pub proof fn lemma_compound_type_texts(n: Seq<char>, t: TypeRefView)
    ensures
        type_ref_text(TypeRefView::Enum(n)) == "enum:"@ + n,
        type_ref_text(TypeRefView::Registry(n)) == "registry:"@ + n,
        type_ref_text(TypeRefView::Array(Box::new(t))) == "array:"@ + type_ref_text(t),
{
}

/// Whether `t` can be read back from its text when read at array depth
/// `depth`: its enum and registry names are manifest names, and its arrays
/// nest no deeper than the reader allows.
pub open spec fn type_ref_readable(t: TypeRefView, depth: nat) -> bool
    decreases t,
{
    match t {
        TypeRefView::Enum(n) => spec_is_manifest_name(n),
        TypeRefView::Registry(n) => spec_is_manifest_name(n),
        TypeRefView::Array(inner) => depth < 8 && type_ref_readable(*inner, depth + 1),
        _ => true,
    }
}

/// Reading the text of a type reference gives the type reference back.
pub proof fn lemma_type_ref_text_reads_back(t: TypeRefView, depth: nat)
    requires
        type_ref_readable(t, depth),
    ensures
        type_ref_at(type_ref_text(t), depth) == Some(t),
    decreases t,
{
    reveal_strlit("string");
    reveal_strlit("symbol");
    reveal_strlit("int");
    reveal_strlit("float");
    reveal_strlit("bool");
    reveal_strlit("speaker");
    reveal_strlit("enum:");
    reveal_strlit("registry:");
    reveal_strlit("array:");
    let s = type_ref_text(t);
    match t {
        TypeRefView::Enum(n) => {
            assert(s[0] == 'e');
            assert(s.subrange(0, 5) =~= "enum:"@);
            assert(s.subrange(5, s.len() as int) =~= n);
        },
        TypeRefView::Registry(n) => {
            assert(s[0] == 'r');
            assert(s.subrange(0, 1)[0] != "enum:"@[0]);
            assert(s.subrange(0, 9) =~= "registry:"@);
            assert(s.subrange(9, s.len() as int) =~= n);
        },
        TypeRefView::Array(inner) => {
            lemma_type_ref_text_reads_back(*inner, depth + 1);
            assert(s[0] == 'a');
            if 5 <= s.len() {
                assert(s.subrange(0, 5)[0] != "enum:"@[0]);
            }
            if 9 <= s.len() {
                assert(s.subrange(0, 9)[0] != "registry:"@[0]);
            }
            assert(s.subrange(0, 6) =~= "array:"@);
            assert(s.subrange(6, s.len() as int) =~= type_ref_text(*inner));
        },
        TypeRefView::Symbol => {
            assert(s[1] != "string"@[1]);
        },
        TypeRefView::Speaker => {
            assert(s.len() != "string"@.len());
            assert(s[1] != "symbol"@[1]);
        },
        _ => {},
    }
}

/// Whether a type reference is `symbol` or an array of it, at any depth.
pub open spec fn has_symbol(t: TypeRefView) -> bool
    decreases t,
{
    match t {
        TypeRefView::Symbol => true,
        TypeRefView::Array(inner) => has_symbol(*inner),
        _ => false,
    }
}

fn contains_symbol_type_ref(t: &SchemaTypeRef) -> (r: bool)
    ensures
        r == has_symbol(t@),
    decreases t,
{
    match t {
        SchemaTypeRef::Symbol => true,
        SchemaTypeRef::Array(inner) => contains_symbol_type_ref(inner),
        _ => false,
    }
}

/// A parameter may not use `symbol`, and only a projection query function's
/// parameter may use an array.
pub open spec fn parameter_type_allowed(owner: Seq<char>, t: TypeRefView) -> bool {
    !has_symbol(t) && (!(t is Array) || "projection query function "@.is_prefix_of(owner))
}

/// The problem of a parameter type that parameters may not use.
pub open spec fn special_type_problem(owner: Seq<char>, name: Seq<char>, t: TypeRefView) -> Problem {
    Problem {
        code: "RECITE_SCHEMA004"@,
        presentation_id: "diagnostic-schema-004-parameter-special-type"@,
        message: owner + " parameter '"@ + name + "' uses projection-only or metadata-only type reference '"@
            + type_ref_text(t) + "'"@,
        arguments: seq![
            ("owner"@, ArgumentView::Text(owner)),
            ("parameter"@, ArgumentView::Text(name)),
            ("type_ref"@, ArgumentView::Text(type_ref_text(t))),
        ],
    }
}

/// The problem of a parameter name repeated in one list.
pub open spec fn repeated_parameter_problem(owner: Seq<char>, name: Seq<char>) -> Problem {
    Problem {
        code: "RECITE_SCHEMA003"@,
        presentation_id: "diagnostic-schema-003-parameter"@,
        message: owner + " repeats parameter '"@ + name + "'"@,
        arguments: seq![("owner"@, ArgumentView::Text(owner)), ("parameter"@, ArgumentView::Text(name))],
    }
}

/// The message of a parameter's invalid type reference.
pub open spec fn parameter_type_message(name: Seq<char>, value: Seq<char>) -> Seq<char> {
    "parameter '"@ + name + "' has invalid type reference '"@ + value + "'"@
}

/// The names of a raw parameter list.
pub open spec fn param_names(ps: Seq<RawParameterDefinition>) -> Seq<Seq<char>> {
    ps.map_values(|p: RawParameterDefinition| p.name@)
}

/// The problems reported for parameter `i` of a list.
pub open spec fn param_problems(owner: Seq<char>, ps: Seq<RawParameterDefinition>, i: int) -> Seq<Problem> {
    let name = ps[i].name@;
    let value = ps[i].type_ref@;
    let name_problems = if name.len() == 0 {
        seq![problem_of(empty_value_view("parameter name"@, arbitrary()))]
    } else if !spec_is_manifest_name(name) {
        seq![problem_of(invalid_name_view("parameter name"@, arbitrary()))]
    } else {
        Seq::empty()
    };
    let repeat = if param_names(ps).take(i).contains(name) {
        seq![repeated_parameter_problem(owner, name)]
    } else {
        Seq::empty()
    };
    let type_problems = match type_ref_at(value, 0) {
        None => seq![invalid_type_problem(
            TypeReferenceContext::Parameter { parameter: ps[i].name },
            value,
            parameter_type_message(name, value),
        )],
        Some(t) => if parameter_type_allowed(owner, t) {
            Seq::empty()
        } else {
            seq![special_type_problem(owner, name, t)]
        },
    };
    name_problems + repeat + type_problems
}

/// The problems reported for the first `n` parameters, in order.
pub open spec fn params_problems(owner: Seq<char>, ps: Seq<RawParameterDefinition>, n: int) -> Seq<Problem>
    decreases n,
{
    if n <= 0 {
        Seq::empty()
    } else {
        params_problems(owner, ps, n - 1) + param_problems(owner, ps, n - 1)
    }
}

/// The type a parameter lowers to: its type, or `string` when it is invalid
/// or one that parameters may not use.
pub open spec fn param_type(owner: Seq<char>, p: RawParameterDefinition) -> TypeRefView {
    match type_ref_at(p.type_ref@, 0) {
        Some(t) => if parameter_type_allowed(owner, t) {
            t
        } else {
            TypeRefView::String
        },
        None => TypeRefView::String,
    }
}

/// A parameter's type is checked against the declared types later.
pub open spec fn param_pending(owner: Seq<char>, p: RawParameterDefinition) -> bool {
    type_ref_at(p.type_ref@, 0) matches Some(t) && parameter_type_allowed(owner, t)
}

/// The pending references the first `n` parameters add: (owner, type).
pub open spec fn params_pending(owner: Seq<char>, ps: Seq<RawParameterDefinition>, n: int) -> Seq<(Seq<char>, TypeRefView)>
    decreases n,
{
    if n <= 0 {
        Seq::empty()
    } else {
        params_pending(owner, ps, n - 1) + if param_pending(owner, ps[n - 1]) {
            seq![(owner + " parameter '"@ + ps[n - 1].name@ + "'"@, param_type(owner, ps[n - 1]))]
        } else {
            Seq::empty()
        }
    }
}

/// Owner and type of pending type references.
pub open spec fn pending_views(ps: Seq<PendingTypeReference>) -> Seq<(Seq<char>, TypeRefView)> {
    ps.map_values(|p: PendingTypeReference| (p.owner@, p.type_ref@))
}

/// `new` is `old` followed by pending references with the views `vs`.
pub open spec fn pending_added(old: Seq<PendingTypeReference>, new: Seq<PendingTypeReference>, vs: Seq<(Seq<char>, TypeRefView)>) -> bool {
    old.len() <= new.len() && new.subrange(0, old.len() as int) == old && pending_views(
        new.subrange(old.len() as int, new.len() as int),
    ) == vs
}

/// View of a lowered parameter: name and type.
pub open spec fn param_view(p: ParameterDefinition) -> (Seq<char>, TypeRefView) {
    (p.name@, p.type_ref@)
}

/// Lower a parameter list: every parameter is kept, with its type, or
/// `string` when the type is invalid or one that parameters may not use.
pub fn lower_params_at(
    file: &str,
    source: &[char],
    spans: &mut ManifestSpans,
    diagnostics: &mut Vec<Diagnostic>,
    owner: &str,
    params: &Vec<RawParameterDefinition>,
    pending_type_refs: &mut Vec<PendingTypeReference>,
) -> (r: Vec<ParameterDefinition>)
    ensures
        r@.len() == params@.len(),
        forall|i: int| 0 <= i < params@.len() ==> #[trigger] param_view(r@[i]) == (params@[i].name@, param_type(owner@, params@[i])),
        reported(old(diagnostics)@, final(diagnostics)@, params_problems(owner@, params@, params@.len() as int)),
        pending_added(old(pending_type_refs)@, final(pending_type_refs)@, params_pending(owner@, params@, params@.len() as int)),
{
    let ghost ps = params@;
    let ghost start = diagnostics@;
    let ghost pstart = pending_type_refs@;
    let mut seen = StrSet::new();
    let mut out: Vec<ParameterDefinition> = Vec::new();
    let mut i: usize = 0;
    proof {
        lemma_reported_none(start);
        assert(pending_type_refs@.subrange(0, pstart.len() as int) =~= pstart);
        assert(pending_views(pending_type_refs@.subrange(pstart.len() as int, pstart.len() as int)) =~= Seq::<(Seq<char>, TypeRefView)>::empty());
    }
    while i < params.len()
        invariant
            ps == params@,
            i <= ps.len(),
            out@.len() == i,
            forall|j: int| 0 <= j < i ==> #[trigger] param_view(out@[j]) == (ps[j].name@, param_type(owner@, ps[j])),
            forall|n: Seq<char>| #[trigger] seen.elem_set().contains(n) <==> param_names(ps).take(i as int).contains(n),
            reported(start, diagnostics@, params_problems(owner@, ps, i as int)),
            pending_added(pstart, pending_type_refs@, params_pending(owner@, ps, i as int)),
        decreases ps.len() - i,
    {
        let param = &params[i];
        let ghost mid = diagnostics@;
        let ghost pmid = pending_type_refs@;
        proof {
            assert(param_names(ps)[i as int] == param.name@);
            assert(param_names(ps).take(i + 1) =~= param_names(ps).take(i as int).push(param.name@));
        }
        let name_span = spans.next_string_span(file, source, param.name.as_str());
        let s1 = name_span.copy();
        let s2 = name_span.copy();
        // Name checks.
        let ghost mut name_probs: Seq<Problem> = Seq::empty();
        proof {
            lemma_reported_none(mid);
        }
        if validate_non_empty_string(diagnostics, "parameter name", param.name.as_str(), name_span) {
            if !validate_manifest_name(diagnostics, "parameter name", param.name.as_str(), s1) {
                proof {
                    lemma_reported_push(mid, mid, Seq::empty(), diagnostics@.last(), problem_of(invalid_name_view("parameter name"@, arbitrary())));
                    assert(diagnostics@ =~= mid.push(diagnostics@.last()));
                    name_probs = seq![problem_of(invalid_name_view("parameter name"@, arbitrary()))];
                    assert(Seq::<Problem>::empty().push(problem_of(invalid_name_view("parameter name"@, arbitrary()))) =~= name_probs);
                }
            }
        } else {
            proof {
                lemma_reported_push(mid, mid, Seq::empty(), diagnostics@.last(), problem_of(empty_value_view("parameter name"@, arbitrary())));
                assert(diagnostics@ =~= mid.push(diagnostics@.last()));
                name_probs = seq![problem_of(empty_value_view("parameter name"@, arbitrary()))];
                assert(Seq::<Problem>::empty().push(problem_of(empty_value_view("parameter name"@, arbitrary()))) =~= name_probs);
            }
        }
        // Repeats.
        let ghost m2 = diagnostics@;
        let ghost seen_before = seen;
        proof {
            assert(seen_before.elem_set().contains(param.name@) == seen_before.elems().contains(param.name@));
        }
        let fresh = seen.insert(crate::text::copy_string(&param.name));
        proof {
            assert forall|n: Seq<char>| #[trigger] seen.elem_set().contains(n) <==> param_names(ps).take(i + 1).contains(n) by {
                crate::manifest::lower::definitions::lemma_push_contains_seq_pub(param_names(ps).take(i as int), param.name@, n);
            }
            lemma_reported_none(m2);
        }
        let ghost mut repeat_probs: Seq<Problem> = Seq::empty();
        if !fresh {
            let mut message = crate::text::concat2(owner, " repeats parameter '");
            crate::text::push_text(&mut message, param.name.as_str());
            crate::text::push_text(&mut message, "'");
            let args = vec![text_arg("owner", owner), text_arg("parameter", param.name.as_str())];
            let d = schema_diagnostic(crate::diagnostics::duplicate_definition_code(), "diagnostic-schema-003-parameter", message, s2, args);
            proof {
                assert(crate::diagnostics::arguments_view(args@) =~= seq![
                    ("owner"@, ArgumentView::Text(owner@)),
                    ("parameter"@, ArgumentView::Text(param.name@)),
                ]);
                lemma_reported_push(m2, m2, Seq::empty(), d, repeated_parameter_problem(owner@, param.name@));
                repeat_probs = seq![repeated_parameter_problem(owner@, param.name@)];
                assert(Seq::<Problem>::empty().push(repeated_parameter_problem(owner@, param.name@)) =~= repeat_probs);
            }
            diagnostics.push(d);
        }
        // Type.
        let ghost m3 = diagnostics@;
        let type_span = spans.next_string_span(file, source, param.type_ref.as_str());
        let mut message = crate::text::concat3("parameter '", param.name.as_str(), "' has invalid type reference '");
        crate::text::push_text(&mut message, param.type_ref.as_str());
        crate::text::push_text(&mut message, "'");
        let (mut type_ref, type_ref_span, valid) = lower_type_reference_with_context(
            diagnostics,
            param.type_ref.as_str(),
            type_span,
            message,
            TypeReferenceContext::Parameter { parameter: crate::text::copy_string(&param.name) },
        );
        let ghost mut type_probs: Seq<Problem> = Seq::empty();
        proof {
            if !valid {
                type_probs = seq![invalid_type_problem(
                    TypeReferenceContext::Parameter { parameter: ps[i as int].name },
                    param.type_ref@,
                    parameter_type_message(param.name@, param.type_ref@),
                )];
            } else {
                lemma_reported_none(m3);
            }
        }
        let mut pending = false;
        if valid {
            let ghost m4 = diagnostics@;
            let allowed = !contains_symbol_type_ref(&type_ref) && (match type_ref {
                SchemaTypeRef::Array(_) => false,
                _ => true,
            } || crate::text::strip_prefix(owner, "projection query function ").is_some());
            proof {
                assert("projection query function "@.is_prefix_of(owner@) == ("projection query function "@.len() <= owner@.len() && owner@.subrange(0, "projection query function "@.len() as int) == "projection query function "@));
            }
            if allowed {
                pending = true;
            } else {
                let tname = type_ref_name(&type_ref);
                let mut message = crate::text::concat3(owner, " parameter '", param.name.as_str());
                crate::text::push_text(&mut message, "' uses projection-only or metadata-only type reference '");
                crate::text::push_text(&mut message, tname.as_str());
                crate::text::push_text(&mut message, "'");
                let args = vec![
                    text_arg("owner", owner),
                    text_arg("parameter", param.name.as_str()),
                    text_arg("type_ref", tname.as_str()),
                ];
                let d = schema_diagnostic(
                    crate::diagnostics::invalid_type_reference(),
                    "diagnostic-schema-004-parameter-special-type",
                    message,
                    type_ref_span.copy(),
                    args,
                );
                proof {
                    assert(crate::diagnostics::arguments_view(args@) =~= seq![
                        ("owner"@, ArgumentView::Text(owner@)),
                        ("parameter"@, ArgumentView::Text(param.name@)),
                        ("type_ref"@, ArgumentView::Text(type_ref_text(type_ref@))),
                    ]);
                    lemma_reported_push(m4, m4, Seq::empty(), d, special_type_problem(owner@, param.name@, type_ref@));
                    type_probs = seq![special_type_problem(owner@, param.name@, type_ref@)];
                    assert(Seq::<Problem>::empty().push(special_type_problem(owner@, param.name@, type_ref@)) =~= type_probs);
                }
                diagnostics.push(d);
                type_ref = SchemaTypeRef::String;
            }
        }
        proof {
            lemma_reported_trans(mid, m2, m3, name_probs, repeat_probs);
            lemma_reported_trans(mid, m3, diagnostics@, name_probs + repeat_probs, type_probs);
            assert(name_probs + repeat_probs + type_probs =~= param_problems(owner@, ps, i as int));
            lemma_reported_trans(start, mid, diagnostics@, params_problems(owner@, ps, i as int), param_problems(owner@, ps, i as int));
        }
        if pending {
            let mut powner = crate::text::concat3(owner, " parameter '", param.name.as_str());
            crate::text::push_text(&mut powner, "'");
            let t2 = type_ref.copy();
            pending_type_refs.push(PendingTypeReference { owner: powner, type_ref: t2, span: type_ref_span });
            proof {
                assert(ps[i as int] == *param);
                assert(param_pending(owner@, ps[i as int]));
                assert(param_type(owner@, ps[i as int]) == t2@);
                assert(powner@ == owner@ + " parameter '"@ + ps[i as int].name@ + "'"@);
                assert(params_pending(owner@, ps, i + 1) == params_pending(owner@, ps, i as int) + seq![(powner@, t2@)]);
                let added = pending_type_refs@.subrange(pstart.len() as int, pending_type_refs@.len() as int);
                let prev = pmid.subrange(pstart.len() as int, pmid.len() as int);
                assert(added =~= prev.push(pending_type_refs@.last()));
                assert(pending_views(added) =~= pending_views(prev).push((powner@, t2@)));
                assert(pending_type_refs@.subrange(0, pstart.len() as int) =~= pmid.subrange(0, pstart.len() as int));
                assert(params_pending(owner@, ps, i as int).push((powner@, t2@)) =~= params_pending(owner@, ps, i as int) + seq![(powner@, t2@)]);
                assert(pending_added(pstart, pending_type_refs@, params_pending(owner@, ps, i + 1)));
            }
        } else {
            proof {
                assert(ps[i as int] == *param);
                assert(!param_pending(owner@, ps[i as int]));
                assert(params_pending(owner@, ps, i + 1) == params_pending(owner@, ps, i as int) + Seq::<(Seq<char>, TypeRefView)>::empty());
                assert(params_pending(owner@, ps, i as int) + Seq::<(Seq<char>, TypeRefView)>::empty() =~= params_pending(owner@, ps, i as int));
            }
        }
        out.push(ParameterDefinition { name: crate::text::copy_string(&param.name), type_ref });
        proof {
            assert(param_view(out@[i as int]) == (ps[i as int].name@, param_type(owner@, ps[i as int])));
        }
        i = i + 1;
    }
    out
}

} // verus!
