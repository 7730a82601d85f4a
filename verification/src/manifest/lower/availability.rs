//! Lowering of availability reasons and of their template placeholders.
use vstd::prelude::*;
use crate::collections::StrSet;
use crate::diagnostics::{
    lemma_reported_none, lemma_reported_push, lemma_reported_trans, problem_of, problem_with,
    report, reported, text_arg, ArgumentView, Diagnostic, Problem, SourceSpan,
};
use crate::manifest::lower::definitions::{
    entry_names, is_first_named, lemma_push_contains_seq_pub, name_problems,
};
use crate::manifest::lower::domains::shape_problem;
use crate::manifest::lower::functions::{owner_text, params_lowered};
use crate::manifest::lower::parameters::{
    lower_params_at, param_names, params_pending, params_problems, pending_added, pending_views,
};
use crate::manifest::lower::producer::empty_field_problems;
use crate::manifest::lower::registries::{opt_origin_problems, origin_lowered};
use crate::manifest::lower::producer::lower_origin;
use crate::manifest::lower::functions::lemma_pending_added_trans;
use crate::manifest::raw::{Named, RawAvailabilityReasonDefinition};
use crate::manifest::spans::ManifestSpans;
use crate::manifest::validate::{
    duplicate_definition, duplicate_view, invalid_name_view, is_manifest_name_chars,
    spec_is_manifest_name, validate_manifest_name, validate_non_empty_string,
    PendingTypeReference,
};
use crate::model::{AvailabilityReasonDefinition, ParameterDefinition, ProjectSchema};

verus! {

// ---------------------------------------------------------------------------
// Template placeholders.

/// Why a template's placeholder syntax is invalid.
#[derive(Debug)]
pub enum PlaceholderSyntaxKind {
    /// A `{` with no `}` after it.
    Unterminated,
    /// A placeholder whose name is not an identifier-like name.
    InvalidName(String),
    /// A `}` that neither closes a placeholder nor is doubled.
    UnescapedClosingBrace,
}

/// Character-level view of a placeholder syntax error.
pub enum PlaceholderErrorView {
    Unterminated,
    InvalidName(Seq<char>),
    UnescapedClosingBrace,
}

impl PlaceholderSyntaxKind {
    /// The character-level view.
    pub open spec fn view_of(&self) -> PlaceholderErrorView {
        match self {
            PlaceholderSyntaxKind::Unterminated => PlaceholderErrorView::Unterminated,
            PlaceholderSyntaxKind::InvalidName(n) => PlaceholderErrorView::InvalidName(n@),
            PlaceholderSyntaxKind::UnescapedClosingBrace => PlaceholderErrorView::UnescapedClosingBrace,
        }
    }
}

/// Position of the first `}` at or after `j`, or -1.
pub open spec fn close_index(s: Seq<char>, j: int) -> int
    decreases s.len() - j,
{
    if j < 0 || j >= s.len() {
        -1
    } else if s[j] == '}' {
        j
    } else {
        close_index(s, j + 1)
    }
}

/// The placeholder names of `s` from position `i`, in order, or the first
/// syntax error: `{{` and `}}` stand for braces, `{name}` is a placeholder.
pub open spec fn placeholders_from(s: Seq<char>, i: int) -> Result<Seq<Seq<char>>, PlaceholderErrorView>
    decreases s.len() - i,
{
    if i < 0 || i >= s.len() {
        Ok(Seq::empty())
    } else if s[i] == '{' {
        if i + 1 < s.len() && s[i + 1] == '{' {
            placeholders_from(s, i + 2)
        } else {
            let c = close_index(s, i + 1);
            if c < i + 1 || c >= s.len() {
                Err(PlaceholderErrorView::Unterminated)
            } else {
                let name = s.subrange(i + 1, c);
                if !spec_is_manifest_name(name) {
                    Err(PlaceholderErrorView::InvalidName(name))
                } else {
                    match placeholders_from(s, c + 1) {
                        Ok(rest) => Ok(seq![name] + rest),
                        Err(e) => Err(e),
                    }
                }
            }
        }
    } else if s[i] == '}' {
        if i + 1 < s.len() && s[i + 1] == '}' {
            placeholders_from(s, i + 2)
        } else {
            Err(PlaceholderErrorView::UnescapedClosingBrace)
        }
    } else {
        placeholders_from(s, i + 1)
    }
}

fn find_close(s: &Vec<char>, j: usize) -> (r: Option<usize>)
    ensures
        match r {
            Some(c) => c as int == close_index(s@, j as int) && j <= c < s@.len(),
            None => close_index(s@, j as int) == -1,
        },
    decreases s@.len() - j,
{
    if j >= s.len() {
        None
    } else if s[j] == '}' {
        Some(j)
    } else {
        find_close(s, j + 1)
    }
}

fn placeholders_at(text: &str, s: &Vec<char>, i: usize) -> (r: Result<Vec<String>, PlaceholderSyntaxKind>)
    requires
        s@ == text@,
    ensures
        match (r, placeholders_from(s@, i as int)) {
            (Ok(v), Ok(w)) => v@.map_values(|x: String| x@) == w,
            (Err(e), Err(x)) => e.view_of() == x,
            _ => false,
        },
    decreases s@.len() - i,
{
    if i >= s.len() {
        let v: Vec<String> = Vec::new();
        proof {
            assert(v@.map_values(|x: String| x@) =~= Seq::<Seq<char>>::empty());
        }
        return Ok(v);
    }
    if s[i] == '{' {
        if i + 1 < s.len() && s[i + 1] == '{' {
            return placeholders_at(text, s, i + 2);
        }
        match find_close(s, i + 1) {
            None => Err(PlaceholderSyntaxKind::Unterminated),
            Some(c) => {
                let name_text = text.substring_char(i + 1, c);
                let name_chars = crate::text::str_chars(name_text);
                if !is_manifest_name_chars(name_chars.as_slice()) {
                    return Err(PlaceholderSyntaxKind::InvalidName(String::from_str(name_text)));
                }
                match placeholders_at(text, s, c + 1) {
                    Ok(rest) => {
                        let name = String::from_str(name_text);
                        let mut out: Vec<String> = Vec::new();
                        out.push(name);
                        let ghost first = out@;
                        let mut rest = rest;
                        out.append(&mut rest);
                        proof {
                            assert(out@.map_values(|x: String| x@) =~= seq![s@.subrange(i + 1, c as int)]
                                + placeholders_from(s@, c + 1)->Ok_0);
                        }
                        Ok(out)
                    },
                    Err(e) => Err(e),
                }
            },
        }
    } else if s[i] == '}' {
        if i + 1 < s.len() && s[i + 1] == '}' {
            placeholders_at(text, s, i + 2)
        } else {
            Err(PlaceholderSyntaxKind::UnescapedClosingBrace)
        }
    } else {
        placeholders_at(text, s, i + 1)
    }
}

/// The placeholder names of a template, in order, or its first syntax error.
pub fn extract_placeholder_names(template: &str) -> (r: Result<Vec<String>, PlaceholderSyntaxKind>)
    ensures
        match (r, placeholders_from(template@, 0)) {
            (Ok(v), Ok(w)) => v@.map_values(|x: String| x@) == w,
            (Err(e), Err(x)) => e.view_of() == x,
            _ => false,
        },
{
    let chars = crate::text::str_chars(template);
    placeholders_at(template, &chars, 0)
}

/// The text of a placeholder syntax error.
pub open spec fn placeholder_error_text(e: PlaceholderErrorView) -> Seq<char> {
    match e {
        PlaceholderErrorView::Unterminated => "unterminated placeholder"@,
        PlaceholderErrorView::InvalidName(n) => "invalid placeholder name '"@ + n + "'"@,
        PlaceholderErrorView::UnescapedClosingBrace => "unescaped closing brace"@,
    }
}

impl PlaceholderSyntaxKind {
    /// The text of the error.
    pub fn message(&self) -> (r: String)
        ensures
            r@ == placeholder_error_text(self.view_of()),
    {
        match self {
            PlaceholderSyntaxKind::Unterminated => String::from_str("unterminated placeholder"),
            PlaceholderSyntaxKind::InvalidName(n) => crate::text::concat3("invalid placeholder name '", n.as_str(), "'"),
            PlaceholderSyntaxKind::UnescapedClosingBrace => String::from_str("unescaped closing brace"),
        }
    }
}

/// The problem of a template with invalid placeholder syntax.
pub open spec fn template_syntax_problem(reason: Seq<char>, e: PlaceholderErrorView) -> Problem {
    shape_problem(
        match e {
            PlaceholderErrorView::Unterminated => "diagnostic-schema-001-availability-template-unterminated"@,
            PlaceholderErrorView::InvalidName(_) => "diagnostic-schema-001-availability-template-invalid-name"@,
            PlaceholderErrorView::UnescapedClosingBrace => "diagnostic-schema-001-availability-template-unescaped-closing-brace"@,
        },
        "availability reason '"@ + reason + "' template has invalid placeholder syntax: "@ + placeholder_error_text(e),
        match e {
            PlaceholderErrorView::InvalidName(n) => seq![("reason"@, ArgumentView::Text(reason)), ("name"@, ArgumentView::Text(n))],
            _ => seq![("reason"@, ArgumentView::Text(reason))],
        },
    )
}

/// The problem of a placeholder that names no parameter.
pub open spec fn unknown_placeholder_problem(reason: Seq<char>, placeholder: Seq<char>) -> Problem {
    shape_problem(
        "diagnostic-schema-001-availability-template-unknown-param"@,
        "availability reason '"@ + reason + "' template references unknown parameter '"@ + placeholder + "'"@,
        seq![("reason"@, ArgumentView::Text(reason)), ("placeholder"@, ArgumentView::Text(placeholder))],
    )
}

/// The problem of a parameter that the template does not use.
pub open spec fn unused_param_problem(reason: Seq<char>, param: Seq<char>) -> Problem {
    shape_problem(
        "diagnostic-schema-001-availability-template-unused-param"@,
        "availability reason '"@ + reason + "' parameter '"@ + param + "' is not used in its template"@,
        seq![("reason"@, ArgumentView::Text(reason)), ("parameter"@, ArgumentView::Text(param))],
    )
}

/// The problems of the first `n` placeholders that name no parameter.
pub open spec fn unknown_placeholders_problems(reason: Seq<char>, ph: Seq<Seq<char>>, params: Seq<Seq<char>>, n: int) -> Seq<Problem>
    decreases n,
{
    if n <= 0 {
        Seq::empty()
    } else {
        unknown_placeholders_problems(reason, ph, params, n - 1) + if params.contains(ph[n - 1]) {
            Seq::empty()
        } else {
            seq![unknown_placeholder_problem(reason, ph[n - 1])]
        }
    }
}

/// The problems of the first `n` parameters that no placeholder names.
pub open spec fn unused_params_problems(reason: Seq<char>, ph: Seq<Seq<char>>, params: Seq<Seq<char>>, n: int) -> Seq<Problem>
    decreases n,
{
    if n <= 0 {
        Seq::empty()
    } else {
        unused_params_problems(reason, ph, params, n - 1) + if ph.contains(params[n - 1]) {
            Seq::empty()
        } else {
            seq![unused_param_problem(reason, params[n - 1])]
        }
    }
}

/// The problems of a template against its parameter names.
pub open spec fn template_problems(reason: Seq<char>, template: Seq<char>, params: Seq<Seq<char>>) -> Seq<Problem> {
    match placeholders_from(template, 0) {
        Err(e) => seq![template_syntax_problem(reason, e)],
        Ok(ph) => unknown_placeholders_problems(reason, ph, params, ph.len() as int)
            + unused_params_problems(reason, ph, params, params.len() as int),
    }
}

fn names_contain(names: &Vec<String>, name: &str) -> (r: bool)
    ensures
        r == names@.map_values(|x: String| x@).contains(name@),
{
    let ghost v = names@.map_values(|x: String| x@);
    let mut i: usize = 0;
    while i < names.len()
        invariant
            v == names@.map_values(|x: String| x@),
            i <= names@.len(),
            forall|j: int| 0 <= j < i ==> v[j] != name@,
        decreases names@.len() - i,
    {
        if crate::text::str_eq(names[i].as_str(), name) {
            proof {
                assert(v[i as int] == name@);
            }
            return true;
        }
        i = i + 1;
    }
    proof {
        if v.contains(name@) {
            let k = choose|k: int| 0 <= k < v.len() && v[k] == name@;
            assert(v[k] != name@);
        }
    }
    false
}

/// Check a reason's template placeholders against its parameters.
pub fn validate_template_placeholders(
    diagnostics: &mut Vec<Diagnostic>,
    reason: &str,
    template: &str,
    params: &Vec<ParameterDefinition>,
    span: &SourceSpan,
)
    ensures
        reported(old(diagnostics)@, final(diagnostics)@, template_problems(reason@, template@,
            params@.map_values(|p: ParameterDefinition| p.name@))),
{
    let ghost start = diagnostics@;
    let ghost pn = params@.map_values(|p: ParameterDefinition| p.name@);
    let placeholders = match extract_placeholder_names(template) {
        Ok(p) => p,
        Err(error) => {
            let ghost ev = error.view_of();
            let (id, args) = match &error {
                PlaceholderSyntaxKind::Unterminated => (
                    "diagnostic-schema-001-availability-template-unterminated",
                    vec![text_arg("reason", reason)],
                ),
                PlaceholderSyntaxKind::InvalidName(name) => (
                    "diagnostic-schema-001-availability-template-invalid-name",
                    vec![text_arg("reason", reason), text_arg("name", name.as_str())],
                ),
                PlaceholderSyntaxKind::UnescapedClosingBrace => (
                    "diagnostic-schema-001-availability-template-unescaped-closing-brace",
                    vec![text_arg("reason", reason)],
                ),
            };
            let mut message = crate::text::concat3("availability reason '", reason, "' template has invalid placeholder syntax: ");
            let detail = error.message();
            crate::text::push_text(&mut message, detail.as_str());
            proof {
                let p = template_syntax_problem(reason@, ev);
                assert(crate::diagnostics::arguments_view(args@) =~= p.arguments);
            }
            report(diagnostics, crate::diagnostics::malformed_shape(), id, message, span.copy(), args);
            return;
        },
    };
    let ghost ph = placeholders@.map_values(|x: String| x@);
    let mut names: Vec<String> = Vec::new();
    let mut k: usize = 0;
    while k < params.len()
        invariant
            k <= params@.len(),
            names@.map_values(|x: String| x@) == pn.take(k as int),
            pn == params@.map_values(|p: ParameterDefinition| p.name@),
        decreases params@.len() - k,
    {
        let ghost prev = names@;
        names.push(crate::text::copy_string(&params[k].name));
        proof {
            assert(pn[k as int] == params@[k as int].name@);
            assert(names@ == prev.push(names@.last()));
            assert(pn.take(k + 1) =~= pn.take(k as int).push(pn[k as int]));
            assert(names@.map_values(|x: String| x@) =~= prev.map_values(|x: String| x@).push(pn[k as int]));
        }
        k = k + 1;
    }
    proof {
        assert(pn.take(params@.len() as int) =~= pn);
        lemma_reported_none(start);
    }
    let mut i: usize = 0;
    while i < placeholders.len()
        invariant
            i <= ph.len(),
            ph == placeholders@.map_values(|x: String| x@),
            names@.map_values(|x: String| x@) == pn,
            reported(start, diagnostics@, unknown_placeholders_problems(reason@, ph, pn, i as int)),
        decreases ph.len() - i,
    {
        let placeholder = &placeholders[i];
        let ghost mid = diagnostics@;
        proof {
            assert(ph[i as int] == placeholder@);
        }
        if !names_contain(&names, placeholder.as_str()) {
            let mut message = crate::text::concat3("availability reason '", reason, "' template references unknown parameter '");
            crate::text::push_text(&mut message, placeholder.as_str());
            crate::text::push_text(&mut message, "'");
            let args = vec![text_arg("reason", reason), text_arg("placeholder", placeholder.as_str())];
            proof {
                assert(crate::diagnostics::arguments_view(args@) =~= unknown_placeholder_problem(reason@, placeholder@).arguments);
            }
            report(diagnostics, crate::diagnostics::malformed_shape(), "diagnostic-schema-001-availability-template-unknown-param", message, span.copy(), args);
            proof {
                lemma_reported_trans(start, mid, diagnostics@, unknown_placeholders_problems(reason@, ph, pn, i as int),
                    seq![unknown_placeholder_problem(reason@, placeholder@)]);
            }
        } else {
            proof {
                assert(unknown_placeholders_problems(reason@, ph, pn, i + 1) =~= unknown_placeholders_problems(reason@, ph, pn, i as int));
            }
        }
        i = i + 1;
    }
    let ghost m1 = diagnostics@;
    proof {
        lemma_reported_none(m1);
    }
    let mut j: usize = 0;
    while j < params.len()
        invariant
            j <= params@.len(),
            ph == placeholders@.map_values(|x: String| x@),
            pn == params@.map_values(|p: ParameterDefinition| p.name@),
            reported(m1, diagnostics@, unused_params_problems(reason@, ph, pn, j as int)),
        decreases params@.len() - j,
    {
        let param = &params[j];
        let ghost mid = diagnostics@;
        proof {
            assert(pn[j as int] == param.name@);
        }
        if !names_contain(&placeholders, param.name.as_str()) {
            let mut message = crate::text::concat3("availability reason '", reason, "' parameter '");
            crate::text::push_text(&mut message, param.name.as_str());
            crate::text::push_text(&mut message, "' is not used in its template");
            let args = vec![text_arg("reason", reason), text_arg("parameter", param.name.as_str())];
            proof {
                assert(crate::diagnostics::arguments_view(args@) =~= unused_param_problem(reason@, param.name@).arguments);
            }
            report(diagnostics, crate::diagnostics::malformed_shape(), "diagnostic-schema-001-availability-template-unused-param", message, span.copy(), args);
            proof {
                lemma_reported_trans(m1, mid, diagnostics@, unused_params_problems(reason@, ph, pn, j as int),
                    seq![unused_param_problem(reason@, param.name@)]);
            }
        } else {
            proof {
                assert(unused_params_problems(reason@, ph, pn, j + 1) =~= unused_params_problems(reason@, ph, pn, j as int));
            }
        }
        j = j + 1;
    }
    proof {
        lemma_reported_trans(start, m1, diagnostics@, unknown_placeholders_problems(reason@, ph, pn, ph.len() as int),
            unused_params_problems(reason@, ph, pn, pn.len() as int));
    }
}

// ---------------------------------------------------------------------------
// The `availability_reasons` section.

/// The problems reported for availability reason entry `i`.
pub open spec fn reason_entry_problems(es: Seq<Named<RawAvailabilityReasonDefinition>>, i: int) -> Seq<Problem> {
    let names = entry_names(es);
    if !is_first_named(names, i) {
        name_problems(names, i, "availability reason id"@, "availability reason"@)
    } else {
        let r = es[i].value;
        let owner = owner_text("availability reason '"@, es[i].name@);
        empty_field_problems("availability reason template"@, r.template@) + params_problems(owner, r.params@, r.params@.len() as int)
            + template_problems(es[i].name@, r.template@, param_names(r.params@)) + opt_origin_problems(owner, r.origin)
    }
}

/// The problems reported for the first `n` availability reason entries, in order.
pub open spec fn reasons_problems(es: Seq<Named<RawAvailabilityReasonDefinition>>, n: int) -> Seq<Problem>
    decreases n,
{
    if n <= 0 {
        Seq::empty()
    } else {
        reasons_problems(es, n - 1) + reason_entry_problems(es, n - 1)
    }
}

/// The pending type references of the first `n` availability reason entries.
pub open spec fn reasons_pending(es: Seq<Named<RawAvailabilityReasonDefinition>>, n: int) -> Seq<(Seq<char>, crate::model::TypeRefView)>
    decreases n,
{
    if n <= 0 {
        Seq::empty()
    } else {
        reasons_pending(es, n - 1) + if is_first_named(entry_names(es), n - 1) {
            let owner = owner_text("availability reason '"@, es[n - 1].name@);
            params_pending(owner, es[n - 1].value.params@, es[n - 1].value.params@.len() as int)
        } else {
            Seq::empty()
        }
    }
}

/// The availability reason an entry lowers to.
pub open spec fn reason_lowered(d: AvailabilityReasonDefinition, e: Named<RawAvailabilityReasonDefinition>) -> bool {
    &&& d.template@ == e.value.template@
    &&& params_lowered(owner_text("availability reason '"@, e.name@), d.params@, e.value.params@)
    &&& origin_lowered(d.origin, e.value.origin)
}

/// All fields of two schemas but the availability reasons agree.
pub open spec fn same_but_reasons(a: ProjectSchema, b: ProjectSchema) -> bool {
    &&& a.schema_version == b.schema_version
    &&& a.types == b.types
    &&& a.registries == b.registries
    &&& a.speakers == b.speakers
    &&& a.conditions == b.conditions
    &&& a.effects == b.effects
    &&& a.metadata_domains == b.metadata_domains
    &&& a.metadata == b.metadata
    &&& a.projection_queries == b.projection_queries
    &&& a.presentation_projectors == b.presentation_projectors
    &&& a.markup == b.markup
    &&& a.producer_metadata == b.producer_metadata
}

/// Lower the `availability_reasons` section: each entry with a new schema
/// name becomes a reason with its template, parameters and origin; the
/// template's placeholders are checked against the parameters.
pub fn lower_availability_reasons(
    file: &str,
    source: &[char],
    spans: &mut ManifestSpans,
    entries: Vec<Named<RawAvailabilityReasonDefinition>>,
    schema: &mut ProjectSchema,
    diagnostics: &mut Vec<Diagnostic>,
    pending_type_refs: &mut Vec<PendingTypeReference>,
)
    ensures
        reported(old(diagnostics)@, final(diagnostics)@, reasons_problems(entries@, entries@.len() as int)),
        pending_added(old(pending_type_refs)@, final(pending_type_refs)@, reasons_pending(entries@, entries@.len() as int)),
        same_but_reasons(*old(schema), *final(schema)),
        forall|n: Seq<char>| #[trigger] final(schema).availability_reasons.has(n) <==> (old(schema).availability_reasons.has(n)
            || exists|i: int| 0 <= i < entries@.len() && is_first_named(entry_names(entries@), i) && entries@[i].name@ == n),
        forall|i: int| 0 <= i < entries@.len() && #[trigger] is_first_named(entry_names(entries@), i) ==> (
            final(schema).availability_reasons.spec_get(entries@[i].name@) matches Some(d) && reason_lowered(d, entries@[i])),
{
    let ghost es = entries@;
    let ghost names = entry_names(es);
    let ghost start = diagnostics@;
    let ghost pstart = pending_type_refs@;
    let ghost s0 = *schema;
    let mut entries = entries;
    let mut seen = StrSet::new();
    let mut i: usize = 0;
    proof {
        lemma_reported_none(start);
        assert(pending_type_refs@.subrange(0, pstart.len() as int) =~= pstart);
        assert(pending_views(pending_type_refs@.subrange(pstart.len() as int, pstart.len() as int)) =~= Seq::<(Seq<char>, crate::model::TypeRefView)>::empty());
        assert(es.subrange(0, es.len() as int) =~= es);
    }
    let total = entries.len();
    while entries.len() > 0
        invariant
            total == es.len(),
            names == entry_names(es),
            i <= es.len(),
            entries@ == es.subrange(i as int, es.len() as int),
            same_but_reasons(s0, *schema),
            reported(start, diagnostics@, reasons_problems(es, i as int)),
            pending_added(pstart, pending_type_refs@, reasons_pending(es, i as int)),
            forall|n: Seq<char>| #[trigger] seen.elem_set().contains(n) <==> (spec_is_manifest_name(n) && names.take(i as int).contains(n)),
            forall|n: Seq<char>| #[trigger] schema.availability_reasons.has(n) <==> (s0.availability_reasons.has(n)
                || exists|j: int| 0 <= j < i && is_first_named(names, j) && es[j].name@ == n),
            forall|j: int| 0 <= j < i && #[trigger] is_first_named(names, j) ==> (schema.availability_reasons.spec_get(es[j].name@) matches Some(d)
                && reason_lowered(d, es[j])),
        decreases entries@.len(),
    {
        let entry = entries.remove(0);
        let ghost mid = diagnostics@;
        let ghost pmid = pending_type_refs@;
        proof {
            assert(entry == es[i as int]);
            assert(entries@ =~= es.subrange(i + 1, es.len() as int));
            assert(names[i as int] == entry.name@);
            assert(names.take(i + 1) =~= names.take(i as int).push(entry.name@));
        }
        let name_span = spans.next_string_span(file, source, entry.name.as_str());
        let dup_span = name_span.copy();
        if !validate_manifest_name(diagnostics, "availability reason id", entry.name.as_str(), name_span) {
            proof {
                lemma_reported_push(start, mid, reasons_problems(es, i as int), diagnostics@.last(), problem_of(invalid_name_view("availability reason id"@, arbitrary())));
                assert(diagnostics@ =~= mid.push(diagnostics@.last()));
                assert forall|n: Seq<char>| #[trigger] seen.elem_set().contains(n) <==> (spec_is_manifest_name(n) && names.take(i + 1).contains(n)) by {
                    lemma_push_contains_seq_pub(names.take(i as int), entry.name@, n);
                }
                assert(reasons_pending(es, i + 1) =~= reasons_pending(es, i as int));
            }
            i = i + 1;
            continue;
        }
        let ghost seen_before = seen;
        proof {
            assert(seen_before.elem_set().contains(entry.name@) == seen_before.elems().contains(entry.name@));
        }
        let fresh = seen.insert(crate::text::copy_string(&entry.name));
        proof {
            assert forall|n: Seq<char>| #[trigger] seen.elem_set().contains(n) <==> (spec_is_manifest_name(n) && names.take(i + 1).contains(n)) by {
                lemma_push_contains_seq_pub(names.take(i as int), entry.name@, n);
            }
        }
        if !fresh {
            duplicate_definition(diagnostics, "availability reason", entry.name.as_str(), dup_span);
            proof {
                lemma_reported_push(start, mid, reasons_problems(es, i as int), diagnostics@.last(), problem_of(duplicate_view("availability reason"@, entry.name@, arbitrary())));
                assert(diagnostics@ =~= mid.push(diagnostics@.last()));
                assert(reasons_pending(es, i + 1) =~= reasons_pending(es, i as int));
            }
            i = i + 1;
            continue;
        }
        proof {
            assert(is_first_named(names, i as int));
        }
        let Named { name, value } = entry;
        let RawAvailabilityReasonDefinition { template, params: raw_params, origin } = value;
        let ghost rorigin = origin;
        let template_span = spans.next_string_span(file, source, template.as_str());
        validate_non_empty_string(diagnostics, "availability reason template", template.as_str(), template_span.copy());
        let ghost m1 = diagnostics@;
        let owner = crate::text::concat3("availability reason '", name.as_str(), "'");
        let params = lower_params_at(file, source, spans, diagnostics, owner.as_str(), &raw_params, pending_type_refs);
        let ghost m2 = diagnostics@;
        validate_template_placeholders(diagnostics, name.as_str(), template.as_str(), &params, &template_span);
        let ghost m3 = diagnostics@;
        let lowered_origin = lower_origin(file, source, spans, diagnostics, origin, owner.as_str());
        proof {
            assert(params@.map_values(|p: ParameterDefinition| p.name@) =~= param_names(raw_params@)) by {
                assert forall|k: int| 0 <= k < raw_params@.len() implies params@[k].name@ == raw_params@[k].name@ by {
                    assert(crate::manifest::lower::parameters::param_view(params@[k]) == (raw_params@[k].name@,
                        crate::manifest::lower::parameters::param_type(owner@, raw_params@[k])));
                }
            }
            if rorigin is None {
                lemma_reported_none(m3);
            }
            let p0 = empty_field_problems("availability reason template"@, template@);
            let p1 = params_problems(owner@, raw_params@, raw_params@.len() as int);
            let p2 = template_problems(name@, template@, param_names(raw_params@));
            let p3 = opt_origin_problems(owner@, rorigin);
            assert(m1.len() == mid.len() || m1.len() == mid.len() + 1);
            lemma_reported_none(mid);
            if template@.len() == 0 {
                lemma_reported_push(mid, mid, Seq::empty(), m1.last(), p0[0]);
                assert(m1 =~= mid.push(m1.last()));
                assert(Seq::<Problem>::empty().push(p0[0]) =~= p0);
            } else {
                assert(m1 =~= mid);
            }
            lemma_reported_trans(mid, m1, m2, p0, p1);
            lemma_reported_trans(mid, m2, m3, p0 + p1, p2);
            lemma_reported_trans(mid, m3, diagnostics@, p0 + p1 + p2, p3);
            assert(owner@ == owner_text("availability reason '"@, es[i as int].name@));
            lemma_reported_trans(start, mid, diagnostics@, reasons_problems(es, i as int), reason_entry_problems(es, i as int));
            lemma_pending_added_trans(pstart, pmid, pending_type_refs@, reasons_pending(es, i as int),
                params_pending(owner@, raw_params@, raw_params@.len() as int));
            assert(reasons_pending(es, i + 1) =~= reasons_pending(es, i as int) + params_pending(owner@, raw_params@, raw_params@.len() as int));
        }
        let ghost before = *schema;
        schema.availability_reasons.insert(
            name,
            AvailabilityReasonDefinition { template, params, origin: lowered_origin },
        );
        proof {
            assert forall|j: int| 0 <= j < i + 1 && #[trigger] is_first_named(names, j) implies (schema.availability_reasons.spec_get(es[j].name@) matches Some(d)
                && reason_lowered(d, es[j])) by {
                if j < i {
                    if names[j] == names[i as int] {
                        assert(names.take(i as int)[j] == names[i as int]);
                    }
                    assert(names[j] == es[j].name@);
                }
            }
            assert forall|n: Seq<char>| #[trigger] schema.availability_reasons.has(n) <==> (s0.availability_reasons.has(n)
                || exists|j: int| 0 <= j < i + 1 && is_first_named(names, j) && es[j].name@ == n) by {
                assert(schema.availability_reasons.keys().to_set().contains(n) == schema.availability_reasons.has(n));
                assert(before.availability_reasons.keys().to_set().contains(n) == before.availability_reasons.has(n));
                if n == es[i as int].name@ {
                    assert(is_first_named(names, i as int) && es[i as int].name@ == n);
                }
                if exists|j: int| 0 <= j < i + 1 && is_first_named(names, j) && es[j].name@ == n {
                    let j = choose|j: int| 0 <= j < i + 1 && is_first_named(names, j) && es[j].name@ == n;
                    if j < i {
                        assert(exists|j2: int| 0 <= j2 < i && is_first_named(names, j2) && es[j2].name@ == n);
                    }
                }
            }
        }
        i = i + 1;
    }
}

} // verus!
