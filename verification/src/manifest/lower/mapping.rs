//! Condition availability reason mappings: each argument of the mapping
//! binds a reason parameter to a condition parameter or a literal.
use vstd::prelude::*;
use crate::collections::{StrMap, StrSet};
use crate::diagnostics::{
    lemma_reported_none, lemma_reported_trans, problem_of, problem_with, report, reported,
    text_arg, ArgumentView, Diagnostic, Problem, SourceSpan,
};
use crate::manifest::lower::bindings::{
    binding_view, condition_param_outcome, find_last_param, last_param_type, literal_non_string_binding,
    literal_string_binding, lower_condition_param_binding, other_literal_outcome, param_views,
    string_literal_outcome, BindingView,
};
use crate::manifest::lower::definitions::{entry_names, lemma_push_contains_seq_pub};
use crate::manifest::lower::domains::shape_problem;
use crate::manifest::raw::{Named, RawValue};
use crate::manifest::spans::{ManifestSourceFormat, ManifestSpans};
use crate::model::{
    AvailabilityReasonArgBinding, AvailabilityReasonId, ConditionAvailabilityReasonMapping,
    ConditionDefinition, ConditionReturnType, ParameterDefinition, ProjectSchema, TypeRefView,
};
use crate::manifest::lower::functions::{same_but_conditions, PendingConditionAvailabilityReasonMapping};
use crate::manifest::raw::RawConditionAvailabilityReasonMapping;
use crate::manifest::validate::{invalid_name_view, spec_is_manifest_name, validate_manifest_name};

verus! {

/// The first member of an object named `key`, from position `i`.
pub open spec fn member_from(fields: Seq<(String, RawValue)>, key: Seq<char>, i: int) -> Option<RawValue>
    decreases fields.len() - i,
{
    if i < 0 || i >= fields.len() {
        None
    } else if fields[i].0@ == key {
        Some(fields[i].1)
    } else {
        member_from(fields, key, i + 1)
    }
}

/// The text of the first member named `key`, when it is a string.
pub open spec fn member_text(fields: Seq<(String, RawValue)>, key: Seq<char>) -> Option<Seq<char>> {
    match member_from(fields, key, 0) {
        Some(RawValue::String(s)) => Some(s@),
        _ => None,
    }
}

fn member_index(fields: &Vec<(String, RawValue)>, key: &str) -> (r: Option<usize>)
    ensures
        match r {
            Some(i) => i < fields@.len() && member_from(fields@, key@, 0) == Some(fields@[i as int].1),
            None => member_from(fields@, key@, 0) is None,
        },
{
    let mut i: usize = 0;
    while i < fields.len()
        invariant
            i <= fields@.len(),
            member_from(fields@, key@, 0) == member_from(fields@, key@, i as int),
        decreases fields@.len() - i,
    {
        if crate::text::str_eq(fields[i].0.as_str(), key) {
            return Some(i);
        }
        i = i + 1;
    }
    None
}

fn member_str<'a>(fields: &'a Vec<(String, RawValue)>, key: &str) -> (r: Option<&'a str>)
    ensures
        match r {
            Some(s) => member_text(fields@, key@) == Some(s@),
            None => member_text(fields@, key@) is None,
        },
{
    match member_index(fields, key) {
        Some(i) => match &fields[i].1 {
            RawValue::String(s) => Some(s.as_str()),
            _ => None,
        },
        None => None,
    }
}

/// A problem with no arguments.
pub open spec fn plain_problem(id: Seq<char>, message: Seq<char>) -> Problem {
    shape_problem(id, message, Seq::empty())
}

fn report_plain(diagnostics: &mut Vec<Diagnostic>, id: &str, message: &str, span: SourceSpan)
    ensures
        reported(old(diagnostics)@, final(diagnostics)@, seq![plain_problem(id@, message@)]),
{
    let args: Vec<(String, crate::diagnostics::DiagnosticArgumentValue)> = Vec::new();
    proof {
        assert(crate::diagnostics::arguments_view(args@) =~= Seq::<(Seq<char>, ArgumentView)>::empty());
    }
    report(diagnostics, crate::diagnostics::malformed_shape(), id, String::from_str(message), span, args);
}

/// `s` starts with `p`.
pub open spec fn starts_with(s: Seq<char>, p: Seq<char>) -> bool {
    p.len() <= s.len() && s.subrange(0, p.len() as int) == p
}

/// What an argument value binds a reason parameter of type `t` to, or the problem.
pub open spec fn arg_binding_outcome(
    schema: ProjectSchema,
    format: ManifestSourceFormat,
    c: Seq<char>,
    cps: Seq<(Seq<char>, TypeRefView)>,
    a: Seq<char>,
    t: TypeRefView,
    v: RawValue,
) -> Result<BindingView, Problem> {
    match v {
        RawValue::Object(fields) => if format == ManifestSourceFormat::Json {
            Err(plain_problem("diagnostic-schema-001-availability-tagged-only-toml"@,
                "tagged availability reason arguments are only supported in TOML"@))
        } else {
            match member_text(fields@, "kind"@) {
                None => Err(plain_problem("diagnostic-schema-001-availability-tag-missing-kind"@,
                    "availability reason argument tag must contain kind"@)),
                Some(kind) => if kind == "binding"@ {
                    match member_text(fields@, "name"@) {
                        None => Err(plain_problem("diagnostic-schema-001-availability-binding-missing-name"@,
                            "availability reason binding must contain name"@)),
                        Some(n) => condition_param_outcome(c, cps, a, t, n),
                    }
                } else if kind == "literal"@ {
                    match member_from(fields@, "value"@, 0) {
                        None => Err(plain_problem("diagnostic-schema-001-availability-literal-missing-value"@,
                            "availability reason literal must contain value"@)),
                        Some(RawValue::String(s)) => string_literal_outcome(schema, c, a, t, s@),
                        Some(other) => other_literal_outcome(c, a, t, other),
                    }
                } else {
                    Err(shape_problem("diagnostic-schema-001-availability-tag-kind"@,
                        "unsupported availability reason argument kind '"@ + kind + "'"@,
                        seq![("kind"@, ArgumentView::Text(kind))]))
                },
            }
        },
        RawValue::String(s) => if format == ManifestSourceFormat::Json && starts_with(s@, "$$"@) {
            string_literal_outcome(schema, c, a, t, s@.subrange(1, s@.len() as int))
        } else if starts_with(s@, "$"@) {
            condition_param_outcome(c, cps, a, t, s@.subrange(1, s@.len() as int))
        } else {
            string_literal_outcome(schema, c, a, t, s@)
        },
        other => other_literal_outcome(c, a, t, other),
    }
}

/// Bind one reason parameter from an argument value.
pub fn lower_arg_binding(
    file: &str,
    source: &[char],
    spans: &mut ManifestSpans,
    diagnostics: &mut Vec<Diagnostic>,
    schema: &ProjectSchema,
    format: ManifestSourceFormat,
    condition: &str,
    condition_params: &Vec<ParameterDefinition>,
    param: &ParameterDefinition,
    value: RawValue,
    fallback_span: SourceSpan,
) -> (r: Option<AvailabilityReasonArgBinding>)
    ensures
        match arg_binding_outcome(*schema, format, condition@, param_views(condition_params@), param.name@, param.type_ref@, value) {
            Ok(b) => r matches Some(x) && binding_view(x) == b && final(diagnostics)@ == old(diagnostics)@,
            Err(p) => r is None && reported(old(diagnostics)@, final(diagnostics)@, seq![p]),
        },
{
    let is_json = match format {
        ManifestSourceFormat::Json => true,
        ManifestSourceFormat::Toml => false,
    };
    match value {
        RawValue::Object(fields) => {
            let ghost fs = fields@;
            proof {
                reveal_strlit("binding");
                reveal_strlit("literal");
            }
            if is_json {
                report_plain(diagnostics, "diagnostic-schema-001-availability-tagged-only-toml",
                    "tagged availability reason arguments are only supported in TOML", fallback_span);
                return None;
            }
            let kind = match member_str(&fields, "kind") {
                Some(k) => k,
                None => {
                    report_plain(diagnostics, "diagnostic-schema-001-availability-tag-missing-kind",
                        "availability reason argument tag must contain kind", fallback_span);
                    return None;
                },
            };
            if crate::text::str_eq(kind, "binding") {
                match member_str(&fields, "name") {
                    None => {
                        report_plain(diagnostics, "diagnostic-schema-001-availability-binding-missing-name",
                            "availability reason binding must contain name", fallback_span);
                        None
                    },
                    Some(name) => {
                        let span = spans.next_string_span(file, source, name);
                        lower_condition_param_binding(diagnostics, condition, condition_params, param, name, span)
                    },
                }
            } else if crate::text::str_eq(kind, "literal") {
                match member_index(&fields, "value") {
                    None => {
                        report_plain(diagnostics, "diagnostic-schema-001-availability-literal-missing-value",
                            "availability reason literal must contain value", fallback_span);
                        None
                    },
                    Some(i) => {
                        let mut fields = fields;
                        let (_, literal) = fields.remove(i);
                        proof {
                            assert(literal == fs[i as int].1);
                        }
                        match literal {
                            RawValue::String(s) => {
                                let span = spans.next_string_span(file, source, s.as_str());
                                literal_string_binding(diagnostics, schema, condition, param, s.as_str(), span)
                            },
                            other => literal_non_string_binding(diagnostics, condition, param, other, fallback_span),
                        }
                    },
                }
            } else {
                let message = crate::text::concat3("unsupported availability reason argument kind '", kind, "'");
                let args = vec![text_arg("kind", kind)];
                proof {
                    assert(crate::diagnostics::arguments_view(args@) =~= seq![("kind"@, ArgumentView::Text(kind@))]);
                }
                report(diagnostics, crate::diagnostics::malformed_shape(), "diagnostic-schema-001-availability-tag-kind", message, fallback_span, args);
                None
            }
        },
        RawValue::String(s) => {
            proof {
                reveal_strlit("$$");
                reveal_strlit("$");
            }
            let span = spans.next_string_span(file, source, s.as_str());
            let double = crate::text::strip_prefix(s.as_str(), "$$");
            if is_json && double.is_some() {
                proof {
                    assert(s@.subrange(0, 1) =~= s@.subrange(0, 2).subrange(0, 1));
                    assert(s@.subrange(0, 1) =~= "$"@);
                }
                let rest = crate::text::strip_prefix(s.as_str(), "$");
                match rest {
                    Some(lit) => literal_string_binding(diagnostics, schema, condition, param, lit, span),
                    None => {
                        literal_string_binding(diagnostics, schema, condition, param, s.as_str(), span)
                    },
                }
            } else {
                match crate::text::strip_prefix(s.as_str(), "$") {
                    Some(name) => lower_condition_param_binding(diagnostics, condition, condition_params, param, name, span),
                    None => literal_string_binding(diagnostics, schema, condition, param, s.as_str(), span),
                }
            }
        },
        other => literal_non_string_binding(diagnostics, condition, param, other, fallback_span),
    }
}

// ---------------------------------------------------------------------------
// All arguments of a mapping.

/// `condition '<c>' availability_reason <middle> '<a>'` with condition and argument as arguments.
pub open spec fn argument_problem(code: Seq<char>, id: Seq<char>, c: Seq<char>, middle: Seq<char>, a: Seq<char>) -> Problem {
    problem_with(
        code,
        id,
        "condition '"@ + c + "' availability_reason "@ + middle + " '"@ + a + "'"@,
        seq![("condition"@, ArgumentView::Text(c)), ("argument"@, ArgumentView::Text(a))],
    )
}

fn report_argument(diagnostics: &mut Vec<Diagnostic>, duplicate: bool, id: &str, c: &str, middle: &str, a: &str, span: SourceSpan)
    ensures
        reported(old(diagnostics)@, final(diagnostics)@, seq![argument_problem(
            if duplicate { "RECITE_SCHEMA003"@ } else { "RECITE_SCHEMA001"@ }, id@, c@, middle@, a@)]),
{
    let mut message = crate::text::concat3("condition '", c, "' availability_reason ");
    crate::text::push_text(&mut message, middle);
    crate::text::push_text(&mut message, " '");
    crate::text::push_text(&mut message, a);
    crate::text::push_text(&mut message, "'");
    let args = vec![text_arg("condition", c), text_arg("argument", a)];
    proof {
        assert(crate::diagnostics::arguments_view(args@) =~= seq![
            ("condition"@, ArgumentView::Text(c@)),
            ("argument"@, ArgumentView::Text(a@)),
        ]);
    }
    let code = if duplicate {
        crate::diagnostics::duplicate_definition_code()
    } else {
        crate::diagnostics::malformed_shape()
    };
    report(diagnostics, code, id, message, span, args);
}

/// The binding of mapping argument `i`, or its problem.
pub open spec fn mapping_arg_outcome(
    schema: ProjectSchema,
    format: ManifestSourceFormat,
    c: Seq<char>,
    cps: Seq<(Seq<char>, TypeRefView)>,
    rps: Seq<(Seq<char>, TypeRefView)>,
    args: Seq<Named<RawValue>>,
    i: int,
) -> Result<BindingView, Problem> {
    let a = args[i].name@;
    if entry_names(args).take(i).contains(a) {
        Err(argument_problem("RECITE_SCHEMA003"@, "diagnostic-schema-003-availability-argument"@, c, "repeats argument"@, a))
    } else {
        match last_param_type(rps, a) {
            None => Err(argument_problem("RECITE_SCHEMA001"@, "diagnostic-schema-001-availability-unknown-reason-param"@, c,
                "binds unknown reason parameter"@, a)),
            Some(t) => arg_binding_outcome(schema, format, c, cps, a, t, args[i].value),
        }
    }
}

/// The problems of the first `n` mapping arguments.
pub open spec fn mapping_args_problems(
    schema: ProjectSchema,
    format: ManifestSourceFormat,
    c: Seq<char>,
    cps: Seq<(Seq<char>, TypeRefView)>,
    rps: Seq<(Seq<char>, TypeRefView)>,
    args: Seq<Named<RawValue>>,
    n: int,
) -> Seq<Problem>
    decreases n,
{
    if n <= 0 {
        Seq::empty()
    } else {
        mapping_args_problems(schema, format, c, cps, rps, args, n - 1) + match mapping_arg_outcome(schema, format, c, cps, rps, args, n - 1) {
            Err(p) => seq![p],
            Ok(_) => Seq::empty(),
        }
    }
}

/// The bindings of the first `n` mapping arguments, by argument name.
pub open spec fn mapping_bound(
    schema: ProjectSchema,
    format: ManifestSourceFormat,
    c: Seq<char>,
    cps: Seq<(Seq<char>, TypeRefView)>,
    rps: Seq<(Seq<char>, TypeRefView)>,
    args: Seq<Named<RawValue>>,
    n: int,
) -> Map<Seq<char>, BindingView>
    decreases n,
{
    if n <= 0 {
        Map::empty()
    } else {
        let m = mapping_bound(schema, format, c, cps, rps, args, n - 1);
        match mapping_arg_outcome(schema, format, c, cps, rps, args, n - 1) {
            Ok(b) => m.insert(args[n - 1].name@, b),
            Err(_) => m,
        }
    }
}

/// The problems of the first `n` reason parameters with no binding.
pub open spec fn missing_args_problems(c: Seq<char>, rps: Seq<(Seq<char>, TypeRefView)>, bound: Map<Seq<char>, BindingView>, n: int) -> Seq<Problem>
    decreases n,
{
    if n <= 0 {
        Seq::empty()
    } else {
        missing_args_problems(c, rps, bound, n - 1) + if bound.dom().contains(rps[n - 1].0) {
            Seq::empty()
        } else {
            seq![argument_problem("RECITE_SCHEMA001"@, "diagnostic-schema-001-availability-missing-reason-arg"@, c,
                "is missing argument"@, rps[n - 1].0)]
        }
    }
}

/// The problems of a mapping's arguments: each argument, then each missing one.
pub open spec fn all_mapping_problems(
    schema: ProjectSchema,
    format: ManifestSourceFormat,
    c: Seq<char>,
    cps: Seq<(Seq<char>, TypeRefView)>,
    rps: Seq<(Seq<char>, TypeRefView)>,
    args: Seq<Named<RawValue>>,
) -> Seq<Problem> {
    mapping_args_problems(schema, format, c, cps, rps, args, args.len() as int) + missing_args_problems(c, rps,
        mapping_bound(schema, format, c, cps, rps, args, args.len() as int), rps.len() as int)
}

/// Lowered bindings agree with bindings by name.
pub open spec fn bindings_lowered(m: StrMap<AvailabilityReasonArgBinding>, bound: Map<Seq<char>, BindingView>) -> bool {
    &&& forall|k: Seq<char>| #[trigger] m.has(k) <==> bound.dom().contains(k)
    &&& forall|k: Seq<char>| #[trigger] m.has(k) ==> binding_view(m.spec_get(k)->0) == bound[k]
}

/// Bind the arguments of a mapping to the reason's parameters; the
/// bindings are kept only when no argument has a problem and every
/// parameter is bound.
pub fn lower_mapping_args(
    file: &str,
    source: &[char],
    spans: &mut ManifestSpans,
    diagnostics: &mut Vec<Diagnostic>,
    schema: &ProjectSchema,
    format: ManifestSourceFormat,
    condition: &str,
    condition_params: &Vec<ParameterDefinition>,
    reason_params: &Vec<ParameterDefinition>,
    raw_args: Vec<Named<RawValue>>,
    mapping_span: &SourceSpan,
) -> (r: Option<StrMap<AvailabilityReasonArgBinding>>)
    ensures
        reported(old(diagnostics)@, final(diagnostics)@, all_mapping_problems(*schema, format, condition@,
            param_views(condition_params@), param_views(reason_params@), raw_args@)),
        r is Some <==> all_mapping_problems(*schema, format, condition@, param_views(condition_params@),
            param_views(reason_params@), raw_args@).len() == 0,
        r matches Some(m) ==> bindings_lowered(m, mapping_bound(*schema, format, condition@,
            param_views(condition_params@), param_views(reason_params@), raw_args@, raw_args@.len() as int)),
{
    let ghost args = raw_args@;
    let ghost names = entry_names(args);
    let ghost cps = param_views(condition_params@);
    let ghost rps = param_views(reason_params@);
    let ghost start = diagnostics@;
    let mut raw_args = raw_args;
    let mut seen = StrSet::new();
    let mut lowered: StrMap<AvailabilityReasonArgBinding> = StrMap::new();
    let mut valid = true;
    let mut i: usize = 0;
    let total = raw_args.len();
    proof {
        lemma_reported_none(start);
        assert(args.subrange(0, args.len() as int) =~= args);
    }
    while raw_args.len() > 0
        invariant
            total == args.len(),
            names == entry_names(args),
            cps == param_views(condition_params@),
            rps == param_views(reason_params@),
            i <= args.len(),
            raw_args@ == args.subrange(i as int, args.len() as int),
            forall|n: Seq<char>| #[trigger] seen.elem_set().contains(n) <==> names.take(i as int).contains(n),
            reported(start, diagnostics@, mapping_args_problems(*schema, format, condition@, cps, rps, args, i as int)),
            valid == (mapping_args_problems(*schema, format, condition@, cps, rps, args, i as int).len() == 0),
            bindings_lowered(lowered, mapping_bound(*schema, format, condition@, cps, rps, args, i as int)),
        decreases raw_args@.len(),
    {
        let arg = raw_args.remove(0);
        let ghost mid = diagnostics@;
        let ghost before = lowered;
        let ghost prev_bound = mapping_bound(*schema, format, condition@, cps, rps, args, i as int);
        proof {
            assert(arg == args[i as int]);
            assert(raw_args@ =~= args.subrange(i + 1, args.len() as int));
            assert(names[i as int] == arg.name@);
            assert(names.take(i + 1) =~= names.take(i as int).push(arg.name@));
        }
        let span = spans.next_string_span(file, source, arg.name.as_str());
        let ghost seen_before = seen;
        proof {
            assert(seen_before.elem_set().contains(arg.name@) == seen_before.elems().contains(arg.name@));
        }
        let fresh = seen.insert(crate::text::copy_string(&arg.name));
        proof {
            assert forall|n: Seq<char>| #[trigger] seen.elem_set().contains(n) <==> names.take(i + 1).contains(n) by {
                lemma_push_contains_seq_pub(names.take(i as int), arg.name@, n);
            }
        }
        if !fresh {
            report_argument(diagnostics, true, "diagnostic-schema-003-availability-argument", condition, "repeats argument", arg.name.as_str(), span);
            proof {
                lemma_reported_trans(start, mid, diagnostics@, mapping_args_problems(*schema, format, condition@, cps, rps, args, i as int),
                    seq![mapping_arg_outcome(*schema, format, condition@, cps, rps, args, i as int)->Err_0]);
            }
            valid = false;
            i = i + 1;
            continue;
        }
        let k = match find_last_param(reason_params, arg.name.as_str()) {
            Some(k) => k,
            None => {
                report_argument(diagnostics, false, "diagnostic-schema-001-availability-unknown-reason-param", condition,
                    "binds unknown reason parameter", arg.name.as_str(), span);
                proof {
                    lemma_reported_trans(start, mid, diagnostics@, mapping_args_problems(*schema, format, condition@, cps, rps, args, i as int),
                        seq![mapping_arg_outcome(*schema, format, condition@, cps, rps, args, i as int)->Err_0]);
                }
                valid = false;
                i = i + 1;
                continue;
            },
        };
        let Named { name, value } = arg;
        let binding = lower_arg_binding(file, source, spans, diagnostics, schema, format, condition, condition_params,
            &reason_params[k], value, span);
        match binding {
            None => {
                proof {
                    lemma_reported_trans(start, mid, diagnostics@, mapping_args_problems(*schema, format, condition@, cps, rps, args, i as int),
                        seq![mapping_arg_outcome(*schema, format, condition@, cps, rps, args, i as int)->Err_0]);
                }
                valid = false;
            },
            Some(b) => {
                let ghost bv = binding_view(b);
                let ghost key = name@;
                lowered.insert(name, b);
                proof {
                    assert(mapping_args_problems(*schema, format, condition@, cps, rps, args, i + 1)
                        =~= mapping_args_problems(*schema, format, condition@, cps, rps, args, i as int));
                    let nb = prev_bound.insert(key, bv);
                    assert(mapping_bound(*schema, format, condition@, cps, rps, args, i + 1) == nb);
                    assert forall|x: Seq<char>| #[trigger] lowered.has(x) <==> nb.dom().contains(x) by {
                        assert(lowered.keys().to_set().contains(x) == lowered.has(x));
                        assert(before.keys().to_set().contains(x) == before.has(x));
                    }
                    assert forall|x: Seq<char>| #[trigger] lowered.has(x) implies binding_view(lowered.spec_get(x)->0) == nb[x] by {
                        if x != key {
                            assert(before.has(x));
                        }
                    }
                }
            },
        }
        i = i + 1;
    }
    let ghost bound = mapping_bound(*schema, format, condition@, cps, rps, args, args.len() as int);
    let ghost m1 = diagnostics@;
    proof {
        lemma_reported_none(m1);
    }
    let mut j: usize = 0;
    let mut missing_any = false;
    while j < reason_params.len()
        invariant
            rps == param_views(reason_params@),
            j <= rps.len(),
            bindings_lowered(lowered, bound),
            reported(m1, diagnostics@, missing_args_problems(condition@, rps, bound, j as int)),
            missing_any == (missing_args_problems(condition@, rps, bound, j as int).len() > 0),
        decreases rps.len() - j,
    {
        let ghost mid = diagnostics@;
        let p = &reason_params[j];
        proof {
            assert(rps[j as int].0 == p.name@);
        }
        if !lowered.contains_key(p.name.as_str()) {
            report_argument(diagnostics, false, "diagnostic-schema-001-availability-missing-reason-arg", condition,
                "is missing argument", p.name.as_str(), mapping_span.copy());
            proof {
                lemma_reported_trans(m1, mid, diagnostics@, missing_args_problems(condition@, rps, bound, j as int),
                    seq![argument_problem("RECITE_SCHEMA001"@, "diagnostic-schema-001-availability-missing-reason-arg"@, condition@,
                        "is missing argument"@, rps[j as int].0)]);
            }
            missing_any = true;
        } else {
            proof {
                assert(missing_args_problems(condition@, rps, bound, j + 1) =~= missing_args_problems(condition@, rps, bound, j as int));
            }
        }
        j = j + 1;
    }
    proof {
        lemma_reported_trans(start, m1, diagnostics@, mapping_args_problems(*schema, format, condition@, cps, rps, args, args.len() as int),
            missing_args_problems(condition@, rps, bound, rps.len() as int));
    }
    if valid && !missing_any {
        Some(lowered)
    } else {
        None
    }
}

// ---------------------------------------------------------------------------
// Checking the mappings once reasons are lowered.

/// The declared values that string literals are checked against agree.
pub open spec fn same_value_domains(a: ProjectSchema, b: ProjectSchema) -> bool {
    a.speakers == b.speakers && a.types == b.types && a.registries == b.registries
}

proof fn lemma_mapping_value_domains(
    a: ProjectSchema,
    b: ProjectSchema,
    format: ManifestSourceFormat,
    c: Seq<char>,
    cps: Seq<(Seq<char>, TypeRefView)>,
    rps: Seq<(Seq<char>, TypeRefView)>,
    args: Seq<Named<RawValue>>,
    n: int,
)
    requires
        same_value_domains(a, b),
    ensures
        mapping_args_problems(a, format, c, cps, rps, args, n) == mapping_args_problems(b, format, c, cps, rps, args, n),
        mapping_bound(a, format, c, cps, rps, args, n) == mapping_bound(b, format, c, cps, rps, args, n),
    decreases n,
{
    if n > 0 {
        lemma_mapping_value_domains(a, b, format, c, cps, rps, args, n - 1);
        assert forall|t: TypeRefView, v: Seq<char>| #[trigger] value_known_pair(a, b, t, v) by {}
        assert(mapping_arg_outcome(a, format, c, cps, rps, args, n - 1) == mapping_arg_outcome(b, format, c, cps, rps, args, n - 1));
    }
}

spec fn value_known_pair(a: ProjectSchema, b: ProjectSchema, t: TypeRefView, v: Seq<char>) -> bool {
    crate::manifest::lower::bindings::value_known(a, t, v) == crate::manifest::lower::bindings::value_known(b, t, v)
}

/// The problem of a mapping on a condition that does not return `bool`.
pub open spec fn non_bool_problem(c: Seq<char>) -> Problem {
    shape_problem(
        "diagnostic-schema-001-availability-non-bool-mapping"@,
        "condition '"@ + c + "' availability_reason mapping is only allowed on bool-returning conditions"@,
        seq![("condition"@, ArgumentView::Text(c))],
    )
}

/// The problem of a mapping to an undeclared reason.
pub open spec fn unknown_reason_problem(c: Seq<char>, r: Seq<char>) -> Problem {
    problem_with(
        "RECITE_SCHEMA004"@,
        "diagnostic-schema-004-unknown-availability-reason"@,
        "condition '"@ + c + "' availability_reason references unknown reason '"@ + r + "'"@,
        seq![("condition"@, ArgumentView::Text(c)), ("reason"@, ArgumentView::Text(r))],
    )
}

/// The problems of the mapping of condition `c`.
pub open spec fn pending_mapping_problems(s: ProjectSchema, format: ManifestSourceFormat, c: Seq<char>, m: RawConditionAvailabilityReasonMapping) -> Seq<Problem> {
    match s.conditions.spec_get(c) {
        None => Seq::empty(),
        Some(cd) => (if cd.returns is Bool { Seq::empty() } else { seq![non_bool_problem(c)] }) + if !spec_is_manifest_name(m.reason@) {
            seq![problem_of(invalid_name_view("availability reason id"@, arbitrary()))]
        } else {
            match s.availability_reasons.spec_get(m.reason@) {
                None => seq![unknown_reason_problem(c, m.reason@)],
                Some(rd) => all_mapping_problems(s, format, c, param_views(cd.params@), param_views(rd.params@), m.args@),
            }
        },
    }
}

/// The bindings the mapping of condition `c` gives it, when it is kept.
pub open spec fn pending_mapping_result(s: ProjectSchema, format: ManifestSourceFormat, c: Seq<char>, m: RawConditionAvailabilityReasonMapping) -> Option<Map<Seq<char>, BindingView>> {
    match s.conditions.spec_get(c) {
        None => None,
        Some(cd) => if !spec_is_manifest_name(m.reason@) {
            None
        } else {
            match s.availability_reasons.spec_get(m.reason@) {
                None => None,
                Some(rd) => {
                    let args = m.args@;
                    if all_mapping_problems(s, format, c, param_views(cd.params@), param_views(rd.params@), args).len() == 0 {
                        Some(mapping_bound(s, format, c, param_views(cd.params@), param_views(rd.params@), args, args.len() as int))
                    } else {
                        None
                    }
                },
            }
        },
    }
}

/// The problems of the first `n` pending mappings.
pub open spec fn mappings_problems(s: ProjectSchema, format: ManifestSourceFormat, ps: Seq<(Seq<char>, RawConditionAvailabilityReasonMapping)>, n: int) -> Seq<Problem>
    decreases n,
{
    if n <= 0 {
        Seq::empty()
    } else {
        mappings_problems(s, format, ps, n - 1) + pending_mapping_problems(s, format, ps[n - 1].0, ps[n - 1].1)
    }
}

/// The kept mappings of the first `n` pending ones, by condition: (reason, bindings).
pub open spec fn mapping_results(s: ProjectSchema, format: ManifestSourceFormat, ps: Seq<(Seq<char>, RawConditionAvailabilityReasonMapping)>, n: int) -> Map<Seq<char>, (Seq<char>, Map<Seq<char>, BindingView>)>
    decreases n,
{
    if n <= 0 {
        Map::empty()
    } else {
        let m = mapping_results(s, format, ps, n - 1);
        match pending_mapping_result(s, format, ps[n - 1].0, ps[n - 1].1) {
            Some(b) => m.insert(ps[n - 1].0, (ps[n - 1].1.reason@, b)),
            None => m,
        }
    }
}

/// A condition agrees with its earlier self but for the mappings kept.
pub open spec fn condition_mapped(d: ConditionDefinition, before: ConditionDefinition, k: Seq<char>, results: Map<Seq<char>, (Seq<char>, Map<Seq<char>, BindingView>)>) -> bool {
    &&& d.params == before.params
    &&& d.returns == before.returns
    &&& if results.dom().contains(k) {
        d.availability_reason matches Some(mp) && mp.reason.text() == results[k].0 && bindings_lowered(mp.args, results[k].1)
    } else {
        d.availability_reason == before.availability_reason
    }
}

/// Check each condition's availability reason mapping against the declared
/// reasons and attach the mappings whose arguments all bind.
pub fn validate_condition_availability_reason_mappings(
    file: &str,
    source: &[char],
    spans: &mut ManifestSpans,
    mappings: Vec<PendingConditionAvailabilityReasonMapping>,
    schema: &mut ProjectSchema,
    diagnostics: &mut Vec<Diagnostic>,
    format: ManifestSourceFormat,
)
    ensures
        reported(old(diagnostics)@, final(diagnostics)@, mappings_problems(*old(schema), format,
            crate::manifest::lower::functions::mappings_view(mappings@), mappings@.len() as int)),
        same_but_conditions(*old(schema), *final(schema)),
        final(schema).conditions.keys() == old(schema).conditions.keys(),
        forall|k: Seq<char>| #[trigger] old(schema).conditions.has(k) ==> condition_mapped(final(schema).conditions.spec_get(k)->0,
            old(schema).conditions.spec_get(k)->0, k, mapping_results(*old(schema), format,
            crate::manifest::lower::functions::mappings_view(mappings@), mappings@.len() as int)),
{
    let ghost ps = crate::manifest::lower::functions::mappings_view(mappings@);
    let ghost s0 = *schema;
    let ghost start = diagnostics@;
    let mut mappings = mappings;
    let mut i: usize = 0;
    let total = mappings.len();
    proof {
        lemma_reported_none(start);
        assert(mappings@ =~= mappings@.subrange(0, mappings@.len() as int));
    }
    let ghost all = mappings@;
    while mappings.len() > 0
        invariant
            total == all.len(),
            ps == crate::manifest::lower::functions::mappings_view(all),
            i <= all.len(),
            mappings@ == all.subrange(i as int, all.len() as int),
            same_but_conditions(s0, *schema),
            schema.conditions.keys() == s0.conditions.keys(),
            reported(start, diagnostics@, mappings_problems(s0, format, ps, i as int)),
            forall|k: Seq<char>| #[trigger] s0.conditions.has(k) ==> condition_mapped(schema.conditions.spec_get(k)->0,
                s0.conditions.spec_get(k)->0, k, mapping_results(s0, format, ps, i as int)),
        decreases mappings@.len(),
    {
        let pending = mappings.remove(0);
        let ghost mid = diagnostics@;
        let ghost before = *schema;
        proof {
            assert(pending == all[i as int]);
            assert(mappings@ =~= all.subrange(i + 1, all.len() as int));
            assert(ps[i as int] == (pending.condition@, pending.raw));
        }
        let ghost c = pending.condition@;
        let ghost m = pending.raw;
        let _condition_span = spans.next_string_span(file, source, pending.condition.as_str());
        schema.conditions.proof_sorted();
        let ci = match schema.conditions.find(pending.condition.as_str()) {
            Some(ci) => ci,
            None => {
                proof {
                    assert(!s0.conditions.has(c));
                    assert(mappings_problems(s0, format, ps, i + 1) =~= mappings_problems(s0, format, ps, i as int));
                    assert(mapping_results(s0, format, ps, i + 1) == mapping_results(s0, format, ps, i as int));
                }
                i = i + 1;
                continue;
            },
        };
        proof {
            crate::order::lemma_sorted_index_of(schema.conditions.keys(), ci as int);
            assert(s0.conditions.has(c));
            assert(schema.conditions.spec_get(c) == Some(schema.conditions.entry_seq()[ci as int].1));
        }
        let PendingConditionAvailabilityReasonMapping { condition, raw } = pending;
        let RawConditionAvailabilityReasonMapping { reason, args } = raw;
        let cd = &schema.conditions.entry_at(ci).1;
        match cd.returns {
            ConditionReturnType::Bool => {
                proof {
                    lemma_reported_none(mid);
                }
            },
            ConditionReturnType::Enum(_) => {
                let message = crate::text::concat3("condition '", condition.as_str(),
                    "' availability_reason mapping is only allowed on bool-returning conditions");
                let dargs = vec![text_arg("condition", condition.as_str())];
                proof {
                    assert(crate::diagnostics::arguments_view(dargs@) =~= non_bool_problem(c).arguments);
                }
                report(diagnostics, crate::diagnostics::malformed_shape(), "diagnostic-schema-001-availability-non-bool-mapping",
                    message, _condition_span.copy(), dargs);
            },
        }
        let ghost m1 = diagnostics@;
        let ghost p0 = if s0.conditions.spec_get(c)->0.returns is Bool { Seq::<Problem>::empty() } else { seq![non_bool_problem(c)] };
        let reason_span = spans.next_string_span(file, source, reason.as_str());
        if !validate_manifest_name(diagnostics, "availability reason id", reason.as_str(), reason_span.copy()) {
            proof {
                let p1 = seq![problem_of(invalid_name_view("availability reason id"@, arbitrary()))];
                lemma_reported_none(m1);
                crate::diagnostics::lemma_reported_push(m1, m1, Seq::empty(), diagnostics@.last(), p1[0]);
                assert(diagnostics@ =~= m1.push(diagnostics@.last()));
                assert(Seq::<Problem>::empty().push(p1[0]) =~= p1);
                lemma_reported_trans(mid, m1, diagnostics@, p0, p1);
                lemma_reported_trans(start, mid, diagnostics@, mappings_problems(s0, format, ps, i as int), p0 + p1);
                assert(mapping_results(s0, format, ps, i + 1) == mapping_results(s0, format, ps, i as int));
            }
            i = i + 1;
            continue;
        }
        let rd = match schema.availability_reasons.get(reason.as_str()) {
            Some(rd) => rd,
            None => {
                let mut message = crate::text::concat3("condition '", condition.as_str(), "' availability_reason references unknown reason '");
                crate::text::push_text(&mut message, reason.as_str());
                crate::text::push_text(&mut message, "'");
                let dargs = vec![text_arg("condition", condition.as_str()), text_arg("reason", reason.as_str())];
                proof {
                    assert(crate::diagnostics::arguments_view(dargs@) =~= unknown_reason_problem(c, m.reason@).arguments);
                }
                report(diagnostics, crate::diagnostics::invalid_type_reference(), "diagnostic-schema-004-unknown-availability-reason",
                    message, reason_span, dargs);
                proof {
                    lemma_reported_trans(mid, m1, diagnostics@, p0, seq![unknown_reason_problem(c, m.reason@)]);
                    lemma_reported_trans(start, mid, diagnostics@, mappings_problems(s0, format, ps, i as int), p0 + seq![unknown_reason_problem(c, m.reason@)]);
                    assert(mapping_results(s0, format, ps, i + 1) == mapping_results(s0, format, ps, i as int));
                }
                i = i + 1;
                continue;
            },
        };
        let ghost cdv = *cd;
        let ghost rdv = *rd;
        let lowered = lower_mapping_args(file, source, spans, diagnostics, schema, format, condition.as_str(), &cd.params,
            &rd.params, args, &reason_span);
        proof {
            lemma_mapping_value_domains(*schema, s0, format, c, param_views(cdv.params@), param_views(rdv.params@), m.args@, m.args@.len() as int);
            assert(condition_mapped(schema.conditions.spec_get(c)->0, s0.conditions.spec_get(c)->0, c, mapping_results(s0, format, ps, i as int)));
            assert(cdv.params == s0.conditions.spec_get(c)->0.params);
            assert(s0.availability_reasons.spec_get(m.reason@) == Some(rdv));
            lemma_reported_trans(mid, m1, diagnostics@, p0, all_mapping_problems(s0, format, c, param_views(cdv.params@), param_views(rdv.params@), m.args@));
            lemma_reported_trans(start, mid, diagnostics@, mappings_problems(s0, format, ps, i as int),
                pending_mapping_problems(s0, format, c, m));
        }
        match lowered {
            None => {
                proof {
                    assert(mapping_results(s0, format, ps, i + 1) == mapping_results(s0, format, ps, i as int));
                }
            },
            Some(bound) => {
                let id = match AvailabilityReasonId::new(reason) {
                    Some(id) => id,
                    None => {
                        i = i + 1;
                        continue;
                    },
                };
                let placeholder = ConditionDefinition {
                    params: Vec::new(),
                    returns: ConditionReturnType::Bool,
                    availability_reason: None,
                };
                let ghost b0 = *schema;
                let held = schema.conditions.replace_value_at(ci, placeholder);
                let ConditionDefinition { params, returns: ret, availability_reason: _ } = held;
                let updated = ConditionDefinition {
                    params,
                    returns: ret,
                    availability_reason: Some(ConditionAvailabilityReasonMapping { reason: id, args: bound }),
                };
                schema.conditions.replace_value_at(ci, updated);
                proof {
                    let res = mapping_results(s0, format, ps, i as int);
                    let res1 = mapping_results(s0, format, ps, i + 1);
                    assert(res1 == res.insert(c, (m.reason@, pending_mapping_result(s0, format, c, m)->0)));
                    assert forall|k: Seq<char>| #[trigger] s0.conditions.has(k) implies condition_mapped(schema.conditions.spec_get(k)->0,
                        s0.conditions.spec_get(k)->0, k, res1) by {
                        assert(schema.conditions.keys() == b0.conditions.keys());
                        if k == c {
                            assert(schema.conditions.keys().index_of(k) == ci);
                        } else {
                            let j = b0.conditions.keys().index_of(k);
                            assert(b0.conditions.keys().contains(k));
                            assert(b0.conditions.keys()[j] == k);
                            assert(j != ci);
                            assert(schema.conditions.spec_get(k) == b0.conditions.spec_get(k));
                        }
                    }
                }
            },
        }
        i = i + 1;
    }
}

} // verus!
