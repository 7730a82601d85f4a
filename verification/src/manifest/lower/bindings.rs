//! Availability reason argument bindings: literals and condition parameters.
use vstd::prelude::*;
use crate::diagnostics::{problem_with, report, reported, text_arg, ArgumentView, Diagnostic, Problem, SourceSpan};
use crate::manifest::lower::definitions::enum_values;
use crate::manifest::lower::domains::shape_problem;
use crate::manifest::lower::parameters::{type_ref_name, type_ref_text};
use crate::manifest::raw::RawValue;
use crate::manifest::version::{i64_text_value, parse_i64};
use crate::model::{
    AvailabilityReasonArgBinding, ParameterDefinition, ProjectSchema, SchemaLiteralValue,
    SchemaTypeDefinition, SchemaTypeRef, TypeRefView,
};

verus! {

/// Character-level view of a schema literal.
pub enum LiteralView {
    String(Seq<char>),
    Int(int),
    Float(Seq<char>),
    Bool(bool),
}

/// View of a schema literal.
pub open spec fn literal_view(v: SchemaLiteralValue) -> LiteralView {
    match v {
        SchemaLiteralValue::String(s) => LiteralView::String(s@),
        SchemaLiteralValue::Int(i) => LiteralView::Int(i as int),
        SchemaLiteralValue::Float(s) => LiteralView::Float(s@),
        SchemaLiteralValue::Bool(b) => LiteralView::Bool(b),
    }
}

/// Character-level view of an argument binding.
pub enum BindingView {
    ConditionParam(Seq<char>),
    Literal(LiteralView),
}

/// View of an argument binding.
pub open spec fn binding_view(b: AvailabilityReasonArgBinding) -> BindingView {
    match b {
        AvailabilityReasonArgBinding::ConditionParam(n) => BindingView::ConditionParam(n@),
        AvailabilityReasonArgBinding::Literal(v) => BindingView::Literal(literal_view(v)),
    }
}

/// `condition '<c>' availability_reason argument '<a>'`.
pub open spec fn argument_owner(c: Seq<char>, a: Seq<char>) -> Seq<char> {
    "condition '"@ + c + "' availability_reason argument '"@ + a + "'"@
}

/// A problem about an argument: condition, argument and expected type.
pub open spec fn expected_problem(id: Seq<char>, c: Seq<char>, a: Seq<char>, t: TypeRefView, tail: Seq<char>) -> Problem {
    shape_problem(
        id,
        argument_owner(c, a) + " expects "@ + type_ref_text(t) + tail,
        seq![("condition"@, ArgumentView::Text(c)), ("argument"@, ArgumentView::Text(a)),
            ("expected"@, ArgumentView::Text(type_ref_text(t)))],
    )
}

/// A string value is one of the declared values of the type, or the type
/// names nothing declared (that is reported elsewhere).
pub open spec fn value_known(schema: ProjectSchema, t: TypeRefView, value: Seq<char>) -> bool {
    match t {
        TypeRefView::Speaker => schema.speakers.has(value),
        TypeRefView::Enum(name) => match schema.types.spec_get(name) {
            Some(d) => enum_values(d).contains(value),
            None => true,
        },
        TypeRefView::Registry(name) => match schema.registries.spec_get(name) {
            Some(d) => d.values.elem_set().contains(value),
            None => true,
        },
        _ => true,
    }
}

/// The problem of a string value the type does not declare.
pub open spec fn unknown_value_problem(c: Seq<char>, a: Seq<char>, t: TypeRefView, value: Seq<char>) -> Problem {
    shape_problem(
        "diagnostic-schema-001-availability-binding-unknown-value"@,
        argument_owner(c, a) + " uses unknown "@ + type_ref_text(t) + " value '"@ + value + "'"@,
        seq![("condition"@, ArgumentView::Text(c)), ("argument"@, ArgumentView::Text(a)),
            ("expected"@, ArgumentView::Text(type_ref_text(t))), ("value"@, ArgumentView::Text(value))],
    )
}

/// A string literal bound to a parameter of type `t`.
pub open spec fn string_literal_outcome(schema: ProjectSchema, c: Seq<char>, a: Seq<char>, t: TypeRefView, value: Seq<char>) -> Result<BindingView, Problem> {
    match t {
        TypeRefView::String | TypeRefView::Speaker | TypeRefView::Enum(_) | TypeRefView::Registry(_) => {
            if value_known(schema, t, value) {
                Ok(BindingView::Literal(LiteralView::String(value)))
            } else {
                Err(unknown_value_problem(c, a, t, value))
            }
        },
        _ => Err(expected_problem("diagnostic-schema-001-availability-binding-string-type"@, c, a, t, ", but got string literal"@)),
    }
}

fn value_known_exec(schema: &ProjectSchema, t: &SchemaTypeRef, value: &str) -> (r: bool)
    ensures
        r == value_known(*schema, t@, value@),
{
    match t {
        SchemaTypeRef::Speaker => schema.speakers.contains_key(value),
        SchemaTypeRef::Enum(name) => match schema.types.get(name.as_str()) {
            Some(SchemaTypeDefinition::Enum(d)) => {
                let r = d.values.contains(value);
                proof {
                    assert(d.values.elem_set().contains(value@) == d.values.elems().contains(value@));
                }
                r
            },
            None => true,
        },
        SchemaTypeRef::Registry(name) => match schema.registries.get(name.as_str()) {
            Some(d) => {
                let r = d.values.contains(value);
                proof {
                    assert(d.values.elem_set().contains(value@) == d.values.elems().contains(value@));
                }
                r
            },
            None => true,
        },
        _ => true,
    }
}

fn report_expected(diagnostics: &mut Vec<Diagnostic>, id: &str, condition: &str, param: &ParameterDefinition, tail: &str, span: SourceSpan)
    ensures
        reported(old(diagnostics)@, final(diagnostics)@, seq![expected_problem(id@, condition@, param.name@, param.type_ref@, tail@)]),
{
    let expected = type_ref_name(&param.type_ref);
    let mut message = crate::text::concat3("condition '", condition, "' availability_reason argument '");
    crate::text::push_text(&mut message, param.name.as_str());
    crate::text::push_text(&mut message, "' expects ");
    crate::text::push_text(&mut message, expected.as_str());
    crate::text::push_text(&mut message, tail);
    let args = vec![text_arg("condition", condition), text_arg("argument", param.name.as_str()), text_arg("expected", expected.as_str())];
    proof {
        reveal_strlit("' availability_reason argument '");
        reveal_strlit("' expects ");
        reveal_strlit("'");
        reveal_strlit(" expects ");
        let p = expected_problem(id@, condition@, param.name@, param.type_ref@, tail@);
        assert(crate::diagnostics::arguments_view(args@) =~= p.arguments);
        assert(message@ =~= p.message);
    }
    report(diagnostics, crate::diagnostics::malformed_shape(), id, message, span, args);
}

/// Bind a string literal to a reason parameter.
pub fn literal_string_binding(
    diagnostics: &mut Vec<Diagnostic>,
    schema: &ProjectSchema,
    condition: &str,
    param: &ParameterDefinition,
    value: &str,
    span: SourceSpan,
) -> (r: Option<AvailabilityReasonArgBinding>)
    ensures
        match string_literal_outcome(*schema, condition@, param.name@, param.type_ref@, value@) {
            Ok(b) => r matches Some(x) && binding_view(x) == b && final(diagnostics)@ == old(diagnostics)@,
            Err(p) => r is None && reported(old(diagnostics)@, final(diagnostics)@, seq![p]),
        },
{
    match &param.type_ref {
        SchemaTypeRef::String | SchemaTypeRef::Speaker | SchemaTypeRef::Enum(_) | SchemaTypeRef::Registry(_) => {
            if value_known_exec(schema, &param.type_ref, value) {
                Some(AvailabilityReasonArgBinding::Literal(SchemaLiteralValue::String(String::from_str(value))))
            } else {
                let expected = type_ref_name(&param.type_ref);
                let mut message = crate::text::concat3("condition '", condition, "' availability_reason argument '");
                crate::text::push_text(&mut message, param.name.as_str());
                crate::text::push_text(&mut message, "' uses unknown ");
                crate::text::push_text(&mut message, expected.as_str());
                crate::text::push_text(&mut message, " value '");
                crate::text::push_text(&mut message, value);
                crate::text::push_text(&mut message, "'");
                let args = vec![
                    text_arg("condition", condition),
                    text_arg("argument", param.name.as_str()),
                    text_arg("expected", expected.as_str()),
                    text_arg("value", value),
                ];
                proof {
                    reveal_strlit("' availability_reason argument '");
                    reveal_strlit("' uses unknown ");
                    reveal_strlit("'");
                    reveal_strlit(" uses unknown ");
                    let p = unknown_value_problem(condition@, param.name@, param.type_ref@, value@);
                    assert(crate::diagnostics::arguments_view(args@) =~= p.arguments);
                    assert(message@ =~= p.message);
                }
                report(diagnostics, crate::diagnostics::malformed_shape(), "diagnostic-schema-001-availability-binding-unknown-value", message, span, args);
                None
            }
        },
        _ => {
            report_expected(diagnostics, "diagnostic-schema-001-availability-binding-string-type", condition, param, ", but got string literal", span);
            None
        },
    }
}

/// The kind name of a JSON value.
pub open spec fn literal_kind(v: RawValue) -> Seq<char> {
    match v {
        RawValue::Null => "null"@,
        RawValue::Bool(_) => "bool"@,
        RawValue::Number(_) => "number"@,
        RawValue::String(_) => "string"@,
        RawValue::Array(_) => "array"@,
        RawValue::Object(_) => "object"@,
    }
}

fn literal_kind_text(v: &RawValue) -> (r: &'static str)
    ensures
        r@ == literal_kind(*v),
{
    proof {
        reveal_strlit("null");
        reveal_strlit("bool");
        reveal_strlit("number");
        reveal_strlit("string");
        reveal_strlit("array");
        reveal_strlit("object");
    }
    match v {
        RawValue::Null => "null",
        RawValue::Bool(_) => "bool",
        RawValue::Number(_) => "number",
        RawValue::String(_) => "string",
        RawValue::Array(_) => "array",
        RawValue::Object(_) => "object",
    }
}

/// The problem of a number that is not a finite `f64`.
pub open spec fn float_problem(owner: Seq<char>) -> Problem {
    shape_problem(
        "diagnostic-schema-001-float-not-representable"@,
        owner + " must be finite and representable as f64"@,
        seq![("owner"@, ArgumentView::Text(owner))],
    )
}

/// A float literal's lexeme, when it reads as a finite `f64`.
pub fn finite_f64_literal(
    diagnostics: &mut Vec<Diagnostic>,
    owner: &str,
    lexeme: String,
    finite: bool,
    span: SourceSpan,
) -> (r: Option<String>)
    ensures
        finite ==> (r matches Some(s) && s@ == lexeme@ && final(diagnostics)@ == old(diagnostics)@),
        !finite ==> r is None && reported(old(diagnostics)@, final(diagnostics)@, seq![float_problem(owner@)]),
{
    if finite {
        return Some(lexeme);
    }
    let message = crate::text::concat2(owner, " must be finite and representable as f64");
    let args = vec![text_arg("owner", owner)];
    proof {
        assert(crate::diagnostics::arguments_view(args@) =~= float_problem(owner@).arguments);
    }
    report(diagnostics, crate::diagnostics::malformed_shape(), "diagnostic-schema-001-float-not-representable", message, span, args);
    None
}

/// A non-string literal bound to a parameter of type `t`.
pub open spec fn other_literal_outcome(c: Seq<char>, a: Seq<char>, t: TypeRefView, v: RawValue) -> Result<BindingView, Problem> {
    match (t, v) {
        (TypeRefView::Bool, RawValue::Bool(b)) => Ok(BindingView::Literal(LiteralView::Bool(b))),
        (TypeRefView::Int, RawValue::Number(n)) => match i64_text_value(n.lexeme@) {
            Some(i) => Ok(BindingView::Literal(LiteralView::Int(i))),
            None => Err(shape_problem(
                "diagnostic-schema-001-availability-binding-int"@,
                argument_owner(c, a) + " expects int, but got non-integer number"@,
                seq![("condition"@, ArgumentView::Text(c)), ("argument"@, ArgumentView::Text(a))],
            )),
        },
        (TypeRefView::Float, RawValue::Number(n)) => if n.finite {
            Ok(BindingView::Literal(LiteralView::Float(n.lexeme@)))
        } else {
            Err(float_problem(argument_owner(c, a)))
        },
        _ => Err(shape_problem(
            "diagnostic-schema-001-availability-binding-literal-type"@,
            argument_owner(c, a) + " expects "@ + type_ref_text(t) + ", but got "@ + literal_kind(v) + " literal"@,
            seq![("condition"@, ArgumentView::Text(c)), ("argument"@, ArgumentView::Text(a)),
                ("expected"@, ArgumentView::Text(type_ref_text(t))), ("actual"@, ArgumentView::Text(literal_kind(v)))],
        )),
    }
}

/// Bind a non-string literal to a reason parameter.
pub fn literal_non_string_binding(
    diagnostics: &mut Vec<Diagnostic>,
    condition: &str,
    param: &ParameterDefinition,
    value: RawValue,
    span: SourceSpan,
) -> (r: Option<AvailabilityReasonArgBinding>)
    ensures
        match other_literal_outcome(condition@, param.name@, param.type_ref@, value) {
            Ok(b) => r matches Some(x) && binding_view(x) == b && final(diagnostics)@ == old(diagnostics)@,
            Err(p) => r is None && reported(old(diagnostics)@, final(diagnostics)@, seq![p]),
        },
{
    let ghost v0 = value;
    let mut owner = crate::text::concat3("condition '", condition, "' availability_reason argument '");
    crate::text::push_text(&mut owner, param.name.as_str());
    crate::text::push_text(&mut owner, "'");
    proof {
        assert(owner@ =~= argument_owner(condition@, param.name@));
    }
    match (&param.type_ref, value) {
        (SchemaTypeRef::Bool, RawValue::Bool(b)) => Some(AvailabilityReasonArgBinding::Literal(SchemaLiteralValue::Bool(b))),
        (SchemaTypeRef::Int, RawValue::Number(n)) => {
            let chars = crate::text::str_chars(n.lexeme.as_str());
            match parse_i64(chars.as_slice()) {
                Some(i) => Some(AvailabilityReasonArgBinding::Literal(SchemaLiteralValue::Int(i))),
                None => {
                    let message = crate::text::concat2(owner.as_str(), " expects int, but got non-integer number");
                    let args = vec![text_arg("condition", condition), text_arg("argument", param.name.as_str())];
                    proof {
                        assert(crate::diagnostics::arguments_view(args@) =~= seq![
                            ("condition"@, ArgumentView::Text(condition@)),
                            ("argument"@, ArgumentView::Text(param.name@)),
                        ]);
                    }
                    report(diagnostics, crate::diagnostics::malformed_shape(), "diagnostic-schema-001-availability-binding-int", message, span, args);
                    None
                },
            }
        },
        (SchemaTypeRef::Float, RawValue::Number(n)) => {
            let crate::manifest::raw::RawNumber { lexeme, finite } = n;
            match finite_f64_literal(diagnostics, owner.as_str(), lexeme, finite, span) {
                Some(s) => Some(AvailabilityReasonArgBinding::Literal(SchemaLiteralValue::Float(s))),
                None => None,
            }
        },
        (_, other) => {
            let expected = type_ref_name(&param.type_ref);
            let kind = literal_kind_text(&other);
            let mut message = crate::text::concat3(owner.as_str(), " expects ", expected.as_str());
            crate::text::push_text(&mut message, ", but got ");
            crate::text::push_text(&mut message, kind);
            crate::text::push_text(&mut message, " literal");
            let args = vec![
                text_arg("condition", condition),
                text_arg("argument", param.name.as_str()),
                text_arg("expected", expected.as_str()),
                text_arg("actual", kind),
            ];
            proof {
                assert(crate::diagnostics::arguments_view(args@) =~= seq![
                    ("condition"@, ArgumentView::Text(condition@)),
                    ("argument"@, ArgumentView::Text(param.name@)),
                    ("expected"@, ArgumentView::Text(type_ref_text(param.type_ref@))),
                    ("actual"@, ArgumentView::Text(literal_kind(v0))),
                ]);
            }
            report(diagnostics, crate::diagnostics::malformed_shape(), "diagnostic-schema-001-availability-binding-literal-type", message, span, args);
            None
        },
    }
}

/// The type of the last parameter named `name`, as a map built from the list would hold it.
pub open spec fn last_param_type(ps: Seq<(Seq<char>, TypeRefView)>, name: Seq<char>) -> Option<TypeRefView>
    decreases ps.len(),
{
    if ps.len() == 0 {
        None
    } else if ps.last().0 == name {
        Some(ps.last().1)
    } else {
        last_param_type(ps.drop_last(), name)
    }
}

/// Views of a lowered parameter list.
pub open spec fn param_views(ps: Seq<ParameterDefinition>) -> Seq<(Seq<char>, TypeRefView)> {
    ps.map_values(|p: ParameterDefinition| (p.name@, p.type_ref@))
}

/// Index of the last parameter named `name`.
pub fn find_last_param(ps: &Vec<ParameterDefinition>, name: &str) -> (r: Option<usize>)
    ensures
        match (r, last_param_type(param_views(ps@), name@)) {
            (Some(i), Some(t)) => i < ps@.len() && ps@[i as int].name@ == name@ && ps@[i as int].type_ref@ == t,
            (None, None) => true,
            _ => false,
        },
{
    let ghost v = param_views(ps@);
    let mut i: usize = ps.len();
    proof {
        assert(v.take(i as int) =~= v);
    }
    while i > 0
        invariant
            i <= ps@.len(),
            v == param_views(ps@),
            last_param_type(v, name@) == last_param_type(v.take(i as int), name@),
        decreases i,
    {
        let k = i - 1;
        proof {
            assert(v.take(i as int).last() == v[k as int]);
            assert(v.take(i as int).drop_last() =~= v.take(k as int));
        }
        if crate::text::str_eq(ps[k].name.as_str(), name) {
            return Some(k);
        }
        i = k;
    }
    None
}

/// A binding to the condition parameter `name`.
pub open spec fn condition_param_outcome(c: Seq<char>, cps: Seq<(Seq<char>, TypeRefView)>, a: Seq<char>, t: TypeRefView, name: Seq<char>) -> Result<BindingView, Problem> {
    match last_param_type(cps, name) {
        None => Err(problem_with(
            "RECITE_SCHEMA004"@,
            "diagnostic-schema-004-unknown-condition-param"@,
            "condition '"@ + c + "' availability_reason references unknown condition parameter '"@ + name + "'"@,
            seq![("condition"@, ArgumentView::Text(c)), ("condition_param"@, ArgumentView::Text(name))],
        )),
        Some(ct) => if ct != t {
            Err(shape_problem(
                "diagnostic-schema-001-availability-binding-type-mismatch"@,
                argument_owner(c, a) + " expects "@ + type_ref_text(t) + ", but condition parameter '"@ + name + "' has "@ + type_ref_text(ct),
                seq![("condition"@, ArgumentView::Text(c)), ("argument"@, ArgumentView::Text(a)),
                    ("expected"@, ArgumentView::Text(type_ref_text(t))), ("condition_param"@, ArgumentView::Text(name)),
                    ("actual"@, ArgumentView::Text(type_ref_text(ct)))],
            ))
        } else {
            Ok(BindingView::ConditionParam(name))
        },
    }
}

/// Bind a reason parameter to a condition parameter of the same type.
pub fn lower_condition_param_binding(
    diagnostics: &mut Vec<Diagnostic>,
    condition: &str,
    condition_params: &Vec<ParameterDefinition>,
    param: &ParameterDefinition,
    name: &str,
    span: SourceSpan,
) -> (r: Option<AvailabilityReasonArgBinding>)
    ensures
        match condition_param_outcome(condition@, param_views(condition_params@), param.name@, param.type_ref@, name@) {
            Ok(b) => r matches Some(x) && binding_view(x) == b && final(diagnostics)@ == old(diagnostics)@,
            Err(p) => r is None && reported(old(diagnostics)@, final(diagnostics)@, seq![p]),
        },
{
    match find_last_param(condition_params, name) {
        None => {
            let mut message = crate::text::concat3("condition '", condition, "' availability_reason references unknown condition parameter '");
            crate::text::push_text(&mut message, name);
            crate::text::push_text(&mut message, "'");
            let args = vec![text_arg("condition", condition), text_arg("condition_param", name)];
            proof {
                assert(crate::diagnostics::arguments_view(args@) =~= seq![
                    ("condition"@, ArgumentView::Text(condition@)),
                    ("condition_param"@, ArgumentView::Text(name@)),
                ]);
            }
            report(diagnostics, crate::diagnostics::invalid_type_reference(), "diagnostic-schema-004-unknown-condition-param", message, span, args);
            None
        },
        Some(k) => {
            let cp = &condition_params[k];
            if !cp.type_ref.same(&param.type_ref) {
                let expected = type_ref_name(&param.type_ref);
                let actual = type_ref_name(&cp.type_ref);
                let mut message = crate::text::concat3("condition '", condition, "' availability_reason argument '");
                crate::text::push_text(&mut message, param.name.as_str());
                crate::text::push_text(&mut message, "' expects ");
                crate::text::push_text(&mut message, expected.as_str());
                crate::text::push_text(&mut message, ", but condition parameter '");
                crate::text::push_text(&mut message, name);
                crate::text::push_text(&mut message, "' has ");
                crate::text::push_text(&mut message, actual.as_str());
                let args = vec![
                    text_arg("condition", condition),
                    text_arg("argument", param.name.as_str()),
                    text_arg("expected", expected.as_str()),
                    text_arg("condition_param", name),
                    text_arg("actual", actual.as_str()),
                ];
                proof {
                    reveal_strlit("' availability_reason argument '");
                    reveal_strlit("' expects ");
                    reveal_strlit("'");
                    reveal_strlit(" expects ");
                    let p = condition_param_outcome(condition@, param_views(condition_params@), param.name@, param.type_ref@, name@)->Err_0;
                    assert(crate::diagnostics::arguments_view(args@) =~= p.arguments);
                    assert(message@ =~= p.message);
                }
                report(diagnostics, crate::diagnostics::malformed_shape(), "diagnostic-schema-001-availability-binding-type-mismatch", message, span, args);
                return None;
            }
            Some(AvailabilityReasonArgBinding::ConditionParam(String::from_str(name)))
        },
    }
}

} // verus!
