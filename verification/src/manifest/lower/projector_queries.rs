//! Presentation projector queries: calls of projection query functions on
//! the projector's inputs and earlier query results, checked by type.
use vstd::prelude::*;
use crate::collections::{StrMap, StrSet};
use crate::diagnostics::{
    lemma_reported_none, lemma_reported_push, lemma_reported_trans, problem_of, problem_with,
    report, reported, integer_arg, text_arg, ArgumentView, Diagnostic, Problem, SourceSpan,
};
use crate::manifest::lower::bindings::{last_param_type, param_views};
use crate::manifest::lower::definitions::{entry_names, lemma_push_contains_seq_pub};
use crate::manifest::lower::domains::shape_problem;
use crate::manifest::lower::parameters::{type_ref_name, type_ref_text};
use crate::manifest::raw::{Named, RawProjectionInputRef, RawProjectionQueryDefinition};
use crate::manifest::spans::ManifestSpans;
use crate::manifest::validate::{invalid_name_view, spec_is_manifest_name, validate_manifest_name};
use crate::model::{
    ProjectSchema, ProjectionInput, ProjectionInputRef, ProjectionQueryDefinition, SchemaTypeRef,
    TypeRefView,
};
use crate::text::decimal;

verus! {

/// Character-level view of a reference to an input or a query result.
pub enum RefView {
    Input(Seq<char>),
    QueryResult(Seq<char>),
}

/// View of a lowered reference.
pub open spec fn ref_view(r: ProjectionInputRef) -> RefView {
    match r {
        ProjectionInputRef::Input { name } => RefView::Input(name@),
        ProjectionInputRef::QueryResult { name } => RefView::QueryResult(name@),
    }
}

/// View of a raw reference.
pub open spec fn raw_ref_view(r: RawProjectionInputRef) -> RefView {
    match r {
        RawProjectionInputRef::Input { input } => RefView::Input(input@),
        RawProjectionInputRef::QueryResult { query_result } => RefView::QueryResult(query_result@),
    }
}

/// Views of lowered references.
pub open spec fn ref_views(rs: Seq<ProjectionInputRef>) -> Seq<RefView> {
    rs.map_values(|r: ProjectionInputRef| ref_view(r))
}

/// Views of raw references.
pub open spec fn raw_ref_views(rs: Seq<RawProjectionInputRef>) -> Seq<RefView> {
    rs.map_values(|r: RawProjectionInputRef| raw_ref_view(r))
}

/// Lower a reference.
pub fn lower_input_ref(raw: RawProjectionInputRef) -> (r: ProjectionInputRef)
    ensures
        ref_view(r) == raw_ref_view(raw),
{
    match raw {
        RawProjectionInputRef::Input { input } => ProjectionInputRef::Input { name: input },
        RawProjectionInputRef::QueryResult { query_result } => ProjectionInputRef::QueryResult { name: query_result },
    }
}

/// Lower a list of references.
pub fn lower_input_refs(raw: Vec<RawProjectionInputRef>) -> (r: Vec<ProjectionInputRef>)
    ensures
        ref_views(r@) == raw_ref_views(raw@),
{
    let ghost rs = raw@;
    let mut raw = raw;
    let mut out: Vec<ProjectionInputRef> = Vec::new();
    let total = raw.len();
    proof {
        assert(rs.subrange(0, rs.len() as int) =~= rs);
        assert(ref_views(out@) =~= raw_ref_views(rs.take(0)));
    }
    while raw.len() > 0
        invariant
            total == rs.len(),
            out@.len() <= rs.len(),
            raw@ == rs.subrange(out@.len() as int, rs.len() as int),
            ref_views(out@) == raw_ref_views(rs.take(out@.len() as int)),
        decreases raw@.len(),
    {
        let k = out.len();
        let r = raw.remove(0);
        proof {
            assert(r == rs[k as int]);
            assert(raw@ =~= rs.subrange(k + 1, rs.len() as int));
        }
        let ghost before = out@;
        out.push(lower_input_ref(r));
        proof {
            assert(rs.take(k + 1) =~= rs.take(k as int).push(rs[k as int]));
            assert(ref_views(out@) =~= ref_views(before).push(ref_view(out@.last())));
            assert(raw_ref_views(rs.take(k + 1)) =~= raw_ref_views(rs.take(k as int)).push(raw_ref_view(rs[k as int])));
        }
    }
    proof {
        assert(rs.take(rs.len() as int) =~= rs);
    }
    out
}

/// How a reference is named in messages.
pub open spec fn ref_name(r: RefView) -> Seq<char> {
    match r {
        RefView::Input(n) => "input '"@ + n + "'"@,
        RefView::QueryResult(n) => "query result '"@ + n + "'"@,
    }
}

fn ref_name_text(r: &ProjectionInputRef) -> (s: String)
    ensures
        s@ == ref_name(ref_view(*r)),
{
    match r {
        ProjectionInputRef::Input { name } => crate::text::concat3("input '", name.as_str(), "'"),
        ProjectionInputRef::QueryResult { name } => crate::text::concat3("query result '", name.as_str(), "'"),
    }
}

/// The type a reference has: the last input of its name, or the query result's type.
pub open spec fn ref_type(ins: Seq<(Seq<char>, TypeRefView)>, qs: Map<Seq<char>, TypeRefView>, r: RefView) -> Option<TypeRefView> {
    match r {
        RefView::Input(n) => last_param_type(ins, n),
        RefView::QueryResult(n) => if qs.dom().contains(n) { Some(qs[n]) } else { None },
    }
}

/// The problems of a reference expected to have type `expected`.
pub open spec fn ref_problems(p: Seq<char>, owner: Seq<char>, expected: TypeRefView, ins: Seq<(Seq<char>, TypeRefView)>, qs: Map<Seq<char>, TypeRefView>, r: RefView) -> Seq<Problem> {
    match ref_type(ins, qs, r) {
        None => seq![problem_with(
            "RECITE_SCHEMA004"@,
            "diagnostic-schema-004-unknown-projection-ref"@,
            "projector '"@ + p + "' "@ + owner + " references unknown "@ + ref_name(r),
            seq![("projector"@, ArgumentView::Text(p)), ("owner"@, ArgumentView::Text(owner)), ("ref"@, ArgumentView::Text(ref_name(r)))],
        )],
        Some(a) => if a != expected {
            seq![shape_problem(
                "diagnostic-schema-001-projection-ref-type"@,
                "projector '"@ + p + "' "@ + owner + " expects "@ + type_ref_text(expected) + ", but "@ + ref_name(r) + " has "@ + type_ref_text(a),
                seq![("projector"@, ArgumentView::Text(p)), ("owner"@, ArgumentView::Text(owner)),
                    ("expected"@, ArgumentView::Text(type_ref_text(expected))), ("ref"@, ArgumentView::Text(ref_name(r))),
                    ("actual"@, ArgumentView::Text(type_ref_text(a)))],
            )]
        } else {
            Seq::empty()
        },
    }
}

/// Types by name agree with a map of types.
pub open spec fn types_lowered(m: StrMap<SchemaTypeRef>, qs: Map<Seq<char>, TypeRefView>) -> bool {
    &&& forall|k: Seq<char>| #[trigger] m.has(k) <==> qs.dom().contains(k)
    &&& forall|k: Seq<char>| #[trigger] m.has(k) ==> m.spec_get(k)->0@ == qs[k]
}

/// Views of a projector's inputs: name and type.
pub open spec fn input_type_views(ins: Seq<ProjectionInput>) -> Seq<(Seq<char>, TypeRefView)> {
    ins.map_values(|x: ProjectionInput| (x.name@, x.type_ref@))
}

fn find_last_input(ins: &Vec<ProjectionInput>, name: &str) -> (r: Option<usize>)
    ensures
        match (r, last_param_type(input_type_views(ins@), name@)) {
            (Some(i), Some(t)) => i < ins@.len() && ins@[i as int].type_ref@ == t,
            (None, None) => true,
            _ => false,
        },
{
    let ghost v = input_type_views(ins@);
    let mut i: usize = ins.len();
    proof {
        assert(v.take(i as int) =~= v);
    }
    while i > 0
        invariant
            i <= ins@.len(),
            v == input_type_views(ins@),
            last_param_type(v, name@) == last_param_type(v.take(i as int), name@),
        decreases i,
    {
        let k = i - 1;
        proof {
            assert(v.take(i as int).last() == v[k as int]);
            assert(v.take(i as int).drop_last() =~= v.take(k as int));
        }
        if crate::text::str_eq(ins[k].name.as_str(), name) {
            return Some(k);
        }
        i = k;
    }
    None
}

/// Check that a reference names an input or query result of the expected type.
pub fn validate_ref_type(
    diagnostics: &mut Vec<Diagnostic>,
    p: &str,
    owner: &str,
    expected: &SchemaTypeRef,
    inputs: &Vec<ProjectionInput>,
    query_types: &StrMap<SchemaTypeRef>,
    Ghost(qs): Ghost<Map<Seq<char>, TypeRefView>>,
    r: &ProjectionInputRef,
    span: SourceSpan,
)
    requires
        types_lowered(*query_types, qs),
    ensures
        reported(old(diagnostics)@, final(diagnostics)@, ref_problems(p@, owner@, expected@, input_type_views(inputs@), qs, ref_view(*r))),
{
    let actual: Option<&SchemaTypeRef> = match r {
        ProjectionInputRef::Input { name } => match find_last_input(inputs, name.as_str()) {
            Some(i) => Some(&inputs[i].type_ref),
            None => None,
        },
        ProjectionInputRef::QueryResult { name } => query_types.get(name.as_str()),
    };
    proof {
        match actual {
            Some(a) => assert(ref_type(input_type_views(inputs@), qs, ref_view(*r)) == Some(a@)),
            None => assert(ref_type(input_type_views(inputs@), qs, ref_view(*r)) is None),
        }
    }
    let name = ref_name_text(r);
    match actual {
        None => {
            let mut message = crate::text::concat3("projector '", p, "' ");
            crate::text::push_text(&mut message, owner);
            crate::text::push_text(&mut message, " references unknown ");
            crate::text::push_text(&mut message, name.as_str());
            let args = vec![text_arg("projector", p), text_arg("owner", owner), text_arg("ref", name.as_str())];
            proof {
                assert(crate::diagnostics::arguments_view(args@) =~= seq![("projector"@, ArgumentView::Text(p@)),
                    ("owner"@, ArgumentView::Text(owner@)), ("ref"@, ArgumentView::Text(name@))]);
            }
            report(diagnostics, crate::diagnostics::invalid_type_reference(), "diagnostic-schema-004-unknown-projection-ref", message, span, args);
        },
        Some(a) => {
            if !a.same(expected) {
                let e = type_ref_name(expected);
                let x = type_ref_name(a);
                let mut message = crate::text::concat3("projector '", p, "' ");
                crate::text::push_text(&mut message, owner);
                crate::text::push_text(&mut message, " expects ");
                crate::text::push_text(&mut message, e.as_str());
                crate::text::push_text(&mut message, ", but ");
                crate::text::push_text(&mut message, name.as_str());
                crate::text::push_text(&mut message, " has ");
                crate::text::push_text(&mut message, x.as_str());
                let args = vec![text_arg("projector", p), text_arg("owner", owner), text_arg("expected", e.as_str()),
                    text_arg("ref", name.as_str()), text_arg("actual", x.as_str())];
                proof {
                    assert(crate::diagnostics::arguments_view(args@) =~= seq![("projector"@, ArgumentView::Text(p@)),
                        ("owner"@, ArgumentView::Text(owner@)), ("expected"@, ArgumentView::Text(type_ref_text(expected@))),
                        ("ref"@, ArgumentView::Text(name@)), ("actual"@, ArgumentView::Text(type_ref_text(a@)))]);
                }
                report(diagnostics, crate::diagnostics::malformed_shape(), "diagnostic-schema-001-projection-ref-type", message, span, args);
            } else {
                proof {
                    lemma_reported_none(diagnostics@);
                }
            }
        },
    }
}

/// `query '<q>' argument '<a>'`.
pub open spec fn query_arg_owner(q: Seq<char>, a: Seq<char>) -> Seq<char> {
    "query '"@ + q + "' argument '"@ + a + "'"@
}

/// The problems of the first `n` query arguments.
pub open spec fn query_arg_ref_problems(p: Seq<char>, q: Seq<char>, params: Seq<(Seq<char>, TypeRefView)>, ins: Seq<(Seq<char>, TypeRefView)>, qs: Map<Seq<char>, TypeRefView>, refs: Seq<RefView>, n: int) -> Seq<Problem>
    decreases n,
{
    if n <= 0 {
        Seq::empty()
    } else {
        query_arg_ref_problems(p, q, params, ins, qs, refs, n - 1) + if n - 1 < params.len() {
            ref_problems(p, query_arg_owner(q, params[n - 1].0), params[n - 1].1, ins, qs, refs[n - 1])
        } else {
            Seq::empty()
        }
    }
}

/// The problems of a query call's arguments: their count, then each one's type.
pub open spec fn query_args_problems(p: Seq<char>, q: Seq<char>, f: Seq<char>, params: Seq<(Seq<char>, TypeRefView)>, ins: Seq<(Seq<char>, TypeRefView)>, qs: Map<Seq<char>, TypeRefView>, refs: Seq<RefView>) -> Seq<Problem> {
    (if refs.len() != params.len() {
        seq![shape_problem(
            "diagnostic-schema-001-query-arg-count"@,
            "projector '"@ + p + "' query '"@ + q + "' passes "@ + decimal(refs.len()) + " args to projection query function '"@ + f
                + "', expected "@ + decimal(params.len()),
            seq![("projector"@, ArgumentView::Text(p)), ("query"@, ArgumentView::Text(q)), ("actual"@, ArgumentView::Integer((refs.len() as i64) as int)),
                ("function"@, ArgumentView::Text(f)), ("expected"@, ArgumentView::Integer((params.len() as i64) as int))],
        )]
    } else {
        Seq::empty()
    }) + query_arg_ref_problems(p, q, params, ins, qs, refs, refs.len() as int)
}

/// Lower a query call's arguments, checking their count and types.
pub fn lower_and_validate_query_args(
    diagnostics: &mut Vec<Diagnostic>,
    p: &str,
    q: &str,
    f: &str,
    params: &Vec<crate::model::ParameterDefinition>,
    inputs: &Vec<ProjectionInput>,
    query_types: &StrMap<SchemaTypeRef>,
    Ghost(qs): Ghost<Map<Seq<char>, TypeRefView>>,
    raw_args: Vec<RawProjectionInputRef>,
    span: &SourceSpan,
) -> (r: Vec<ProjectionInputRef>)
    requires
        types_lowered(*query_types, qs),
    ensures
        ref_views(r@) == raw_ref_views(raw_args@),
        reported(old(diagnostics)@, final(diagnostics)@, query_args_problems(p@, q@, f@, param_views(params@), input_type_views(inputs@), qs,
            raw_ref_views(raw_args@))),
{
    let ghost start = diagnostics@;
    let ghost pv = param_views(params@);
    let ghost iv = input_type_views(inputs@);
    if raw_args.len() != params.len() {
        let mut message = crate::text::concat3("projector '", p, "' query '");
        crate::text::push_text(&mut message, q);
        crate::text::push_text(&mut message, "' passes ");
        crate::text::push_decimal(&mut message, raw_args.len());
        crate::text::push_text(&mut message, " args to projection query function '");
        crate::text::push_text(&mut message, f);
        crate::text::push_text(&mut message, "', expected ");
        crate::text::push_decimal(&mut message, params.len());
        let args = vec![
            text_arg("projector", p),
            text_arg("query", q),
            integer_arg("actual", raw_args.len() as i64),
            text_arg("function", f),
            integer_arg("expected", params.len() as i64),
        ];
        proof {
            assert(crate::diagnostics::arguments_view(args@) =~= seq![("projector"@, ArgumentView::Text(p@)), ("query"@, ArgumentView::Text(q@)),
                ("actual"@, ArgumentView::Integer((raw_args@.len() as i64) as int)), ("function"@, ArgumentView::Text(f@)),
                ("expected"@, ArgumentView::Integer((params@.len() as i64) as int))]);
        }
        report(diagnostics, crate::diagnostics::malformed_shape(), "diagnostic-schema-001-query-arg-count", message, span.copy(), args);
    } else {
        proof {
            lemma_reported_none(start);
        }
    }
    let ghost m1 = diagnostics@;
    let refs = lower_input_refs(raw_args);
    let ghost rv = ref_views(refs@);
    proof {
        lemma_reported_none(m1);
    }
    let mut i: usize = 0;
    while i < refs.len()
        invariant
            i <= refs@.len(),
            rv == ref_views(refs@),
            pv == param_views(params@),
            iv == input_type_views(inputs@),
            types_lowered(*query_types, qs),
            reported(m1, diagnostics@, query_arg_ref_problems(p@, q@, pv, iv, qs, rv, i as int)),
        decreases refs@.len() - i,
    {
        let ghost mid = diagnostics@;
        if i < params.len() {
            let param = &params[i];
            let owner = {
                let mut o = crate::text::concat3("query '", q, "' argument '");
                crate::text::push_text(&mut o, param.name.as_str());
                crate::text::push_text(&mut o, "'");
                o
            };
            proof {
                assert(pv[i as int] == (param.name@, param.type_ref@));
                assert(rv[i as int] == ref_view(refs@[i as int]));
                assert(owner@ =~= query_arg_owner(q@, param.name@));
            }
            validate_ref_type(diagnostics, p, owner.as_str(), &param.type_ref, inputs, query_types, Ghost(qs), &refs[i], span.copy());
            proof {
                lemma_reported_trans(m1, mid, diagnostics@, query_arg_ref_problems(p@, q@, pv, iv, qs, rv, i as int),
                    ref_problems(p@, query_arg_owner(q@, pv[i as int].0), pv[i as int].1, iv, qs, rv[i as int]));
            }
        } else {
            proof {
                assert(query_arg_ref_problems(p@, q@, pv, iv, qs, rv, i + 1) =~= query_arg_ref_problems(p@, q@, pv, iv, qs, rv, i as int));
            }
        }
        i = i + 1;
    }
    proof {
        lemma_reported_trans(start, m1, diagnostics@, if rv.len() != pv.len() {
            query_args_problems(p@, q@, f@, pv, iv, qs, rv).take(1)
        } else {
            Seq::empty()
        }, query_arg_ref_problems(p@, q@, pv, iv, qs, rv, rv.len() as int));
        assert(query_args_problems(p@, q@, f@, pv, iv, qs, rv) =~= (if rv.len() != pv.len() {
            query_args_problems(p@, q@, f@, pv, iv, qs, rv).take(1)
        } else {
            Seq::empty()
        }) + query_arg_ref_problems(p@, q@, pv, iv, qs, rv, rv.len() as int));
    }
    refs
}

/// Query `i` is the first of its name.
pub open spec fn query_first(rs: Seq<Named<RawProjectionQueryDefinition>>, i: int) -> bool {
    !entry_names(rs).take(i).contains(rs[i].name@)
}

/// The result types of the first `n` queries whose function is declared.
pub open spec fn query_types_upto(schema: ProjectSchema, rs: Seq<Named<RawProjectionQueryDefinition>>, n: int) -> Map<Seq<char>, TypeRefView>
    decreases n,
{
    if n <= 0 {
        Map::empty()
    } else {
        let m = query_types_upto(schema, rs, n - 1);
        if query_first(rs, n - 1) && schema.projection_queries.has(rs[n - 1].value.function@) {
            m.insert(rs[n - 1].name@, schema.projection_queries.spec_get(rs[n - 1].value.function@)->0.returns@)
        } else {
            m
        }
    }
}

/// The problems of query `i`.
pub open spec fn query_problems(schema: ProjectSchema, p: Seq<char>, ins: Seq<(Seq<char>, TypeRefView)>, rs: Seq<Named<RawProjectionQueryDefinition>>, i: int) -> Seq<Problem> {
    let q = rs[i].name@;
    let f = rs[i].value.function@;
    (if !spec_is_manifest_name(q) { seq![problem_of(invalid_name_view("projection query name"@, arbitrary()))] } else { Seq::empty() })
        + if !query_first(rs, i) {
        seq![problem_with(
            "RECITE_SCHEMA003"@,
            "diagnostic-schema-003-projection-query"@,
            "projector '"@ + p + "' repeats query '"@ + q + "'"@,
            seq![("projector"@, ArgumentView::Text(p)), ("query"@, ArgumentView::Text(q))],
        )]
    } else {
        match schema.projection_queries.spec_get(f) {
            None => seq![problem_with(
                "RECITE_SCHEMA004"@,
                "diagnostic-schema-004-unknown-query-function"@,
                "projector '"@ + p + "' query '"@ + q + "' references unknown projection query function '"@ + f + "'"@,
                seq![("projector"@, ArgumentView::Text(p)), ("query"@, ArgumentView::Text(q)), ("function"@, ArgumentView::Text(f))],
            )],
            Some(fd) => query_args_problems(p, q, f, param_views(fd.params@), ins, query_types_upto(schema, rs, i),
                raw_ref_views(rs[i].value.args@)),
        }
    }
}

/// The problems of the first `n` queries.
pub open spec fn queries_of_problems(schema: ProjectSchema, p: Seq<char>, ins: Seq<(Seq<char>, TypeRefView)>, rs: Seq<Named<RawProjectionQueryDefinition>>, n: int) -> Seq<Problem>
    decreases n,
{
    if n <= 0 {
        Seq::empty()
    } else {
        queries_of_problems(schema, p, ins, rs, n - 1) + query_problems(schema, p, ins, rs, n - 1)
    }
}

/// The lowered queries agree with the first query of each name.
pub open spec fn queries_lowered(r: StrMap<ProjectionQueryDefinition>, rs: Seq<Named<RawProjectionQueryDefinition>>, n: int) -> bool {
    &&& forall|k: Seq<char>| #[trigger] r.has(k) <==> exists|i: int| 0 <= i < n && query_first(rs, i) && rs[i].name@ == k
    &&& forall|i: int| 0 <= i < n && #[trigger] query_first(rs, i) ==> (r.spec_get(rs[i].name@) matches Some(d)
        && d.function@ == rs[i].value.function@ && ref_views(d.args@) == raw_ref_views(rs[i].value.args@))
}

/// Lower a projector's queries: the first query of each name is kept; its
/// arguments are checked against the function's parameters when the
/// function is declared, and its result is then available to later queries.
pub fn lower_projector_queries(
    file: &str,
    source: &[char],
    spans: &mut ManifestSpans,
    diagnostics: &mut Vec<Diagnostic>,
    schema: &ProjectSchema,
    p: &str,
    inputs: &Vec<ProjectionInput>,
    raw_queries: Vec<Named<RawProjectionQueryDefinition>>,
) -> (r: (StrMap<ProjectionQueryDefinition>, StrMap<SchemaTypeRef>))
    ensures
        reported(old(diagnostics)@, final(diagnostics)@, queries_of_problems(*schema, p@, input_type_views(inputs@), raw_queries@,
            raw_queries@.len() as int)),
        queries_lowered(r.0, raw_queries@, raw_queries@.len() as int),
        types_lowered(r.1, query_types_upto(*schema, raw_queries@, raw_queries@.len() as int)),
{
    let ghost rs = raw_queries@;
    let ghost names = entry_names(rs);
    let ghost iv = input_type_views(inputs@);
    let ghost start = diagnostics@;
    let mut raw_queries = raw_queries;
    let mut query_types: StrMap<SchemaTypeRef> = StrMap::new();
    let mut seen = StrSet::new();
    let mut lowered: StrMap<ProjectionQueryDefinition> = StrMap::new();
    let mut i: usize = 0;
    let total = raw_queries.len();
    proof {
        lemma_reported_none(start);
        assert(rs.subrange(0, rs.len() as int) =~= rs);
    }
    while raw_queries.len() > 0
        invariant
            total == rs.len(),
            names == entry_names(rs),
            iv == input_type_views(inputs@),
            i <= rs.len(),
            raw_queries@ == rs.subrange(i as int, rs.len() as int),
            forall|n: Seq<char>| #[trigger] seen.elem_set().contains(n) <==> names.take(i as int).contains(n),
            types_lowered(query_types, query_types_upto(*schema, rs, i as int)),
            reported(start, diagnostics@, queries_of_problems(*schema, p@, iv, rs, i as int)),
            queries_lowered(lowered, rs, i as int),
        decreases raw_queries@.len(),
    {
        let raw = raw_queries.remove(0);
        let ghost mid = diagnostics@;
        let ghost before = lowered;
        let ghost qbefore = query_types;
        let ghost qs = query_types_upto(*schema, rs, i as int);
        proof {
            assert(raw == rs[i as int]);
            assert(raw_queries@ =~= rs.subrange(i + 1, rs.len() as int));
            assert(names[i as int] == raw.name@);
            assert(names.take(i + 1) =~= names.take(i as int).push(raw.name@));
        }
        let Named { name, value } = raw;
        let RawProjectionQueryDefinition { function, args } = value;
        let span = spans.next_string_span(file, source, name.as_str());
        let dup_span = span.copy();
        validate_manifest_name(diagnostics, "projection query name", name.as_str(), span);
        let ghost m1 = diagnostics@;
        let ghost p0 = if !spec_is_manifest_name(name@) { seq![problem_of(invalid_name_view("projection query name"@, arbitrary()))] } else { Seq::<Problem>::empty() };
        proof {
            lemma_reported_none(mid);
            if !spec_is_manifest_name(name@) {
                lemma_reported_push(mid, mid, Seq::empty(), m1.last(), p0[0]);
                assert(m1 =~= mid.push(m1.last()));
                assert(Seq::<Problem>::empty().push(p0[0]) =~= p0);
            } else {
                assert(m1 =~= mid);
            }
        }
        let ghost seen_before = seen;
        proof {
            assert(seen_before.elem_set().contains(name@) == seen_before.elems().contains(name@));
        }
        let fresh = seen.insert(crate::text::copy_string(&name));
        proof {
            assert forall|n: Seq<char>| #[trigger] seen.elem_set().contains(n) <==> names.take(i + 1).contains(n) by {
                lemma_push_contains_seq_pub(names.take(i as int), name@, n);
            }
            assert(fresh == query_first(rs, i as int));
        }
        if !fresh {
            let mut message = crate::text::concat3("projector '", p, "' repeats query '");
            crate::text::push_text(&mut message, name.as_str());
            crate::text::push_text(&mut message, "'");
            let dargs = vec![text_arg("projector", p), text_arg("query", name.as_str())];
            proof {
                assert(crate::diagnostics::arguments_view(dargs@) =~= seq![("projector"@, ArgumentView::Text(p@)), ("query"@, ArgumentView::Text(name@))]);
            }
            report(diagnostics, crate::diagnostics::duplicate_definition_code(), "diagnostic-schema-003-projection-query", message, dup_span, dargs);
            proof {
                lemma_reported_trans(mid, m1, diagnostics@, p0, query_problems(*schema, p@, iv, rs, i as int).subrange(p0.len() as int,
                    query_problems(*schema, p@, iv, rs, i as int).len() as int));
                assert(query_problems(*schema, p@, iv, rs, i as int) =~= p0 + query_problems(*schema, p@, iv, rs, i as int).subrange(p0.len() as int,
                    query_problems(*schema, p@, iv, rs, i as int).len() as int));
                lemma_reported_trans(start, mid, diagnostics@, queries_of_problems(*schema, p@, iv, rs, i as int), query_problems(*schema, p@, iv, rs, i as int));
                assert(query_types_upto(*schema, rs, i + 1) == qs);
                assert forall|k: Seq<char>| #[trigger] lowered.has(k) <==> exists|j: int| 0 <= j < i + 1 && query_first(rs, j) && rs[j].name@ == k by {
                    if exists|j: int| 0 <= j < i + 1 && query_first(rs, j) && rs[j].name@ == k {
                        let j = choose|j: int| 0 <= j < i + 1 && query_first(rs, j) && rs[j].name@ == k;
                        assert(j != i);
                    }
                }
            }
            i = i + 1;
            continue;
        }
        let function_span = spans.next_string_span(file, source, function.as_str());
        match schema.projection_queries.get(function.as_str()) {
            None => {
                let mut message = crate::text::concat3("projector '", p, "' query '");
                crate::text::push_text(&mut message, name.as_str());
                crate::text::push_text(&mut message, "' references unknown projection query function '");
                crate::text::push_text(&mut message, function.as_str());
                crate::text::push_text(&mut message, "'");
                let dargs = vec![text_arg("projector", p), text_arg("query", name.as_str()), text_arg("function", function.as_str())];
                proof {
                    assert(crate::diagnostics::arguments_view(dargs@) =~= seq![("projector"@, ArgumentView::Text(p@)),
                        ("query"@, ArgumentView::Text(name@)), ("function"@, ArgumentView::Text(function@))]);
                }
                report(diagnostics, crate::diagnostics::invalid_type_reference(), "diagnostic-schema-004-unknown-query-function", message, function_span, dargs);
                let refs = lower_input_refs(args);
                let ghost key = name@;
                let ghost fv = function@;
                lowered.insert(name, ProjectionQueryDefinition { function, args: refs });
                proof {
                    let rest = query_problems(*schema, p@, iv, rs, i as int).subrange(p0.len() as int, query_problems(*schema, p@, iv, rs, i as int).len() as int);
                    lemma_reported_trans(mid, m1, diagnostics@, p0, rest);
                    assert(query_problems(*schema, p@, iv, rs, i as int) =~= p0 + rest);
                    lemma_reported_trans(start, mid, diagnostics@, queries_of_problems(*schema, p@, iv, rs, i as int), query_problems(*schema, p@, iv, rs, i as int));
                    assert(query_types_upto(*schema, rs, i + 1) == qs);
                }
            },
            Some(fd) => {
                let refs = lower_and_validate_query_args(diagnostics, p, name.as_str(), function.as_str(), &fd.params, inputs, &query_types,
                    Ghost(qs), args, &function_span);
                proof {
                    lemma_reported_trans(mid, m1, diagnostics@, p0, query_args_problems(p@, name@, function@, param_views(fd.params@), iv, qs,
                        raw_ref_views(rs[i as int].value.args@)));
                    lemma_reported_trans(start, mid, diagnostics@, queries_of_problems(*schema, p@, iv, rs, i as int), query_problems(*schema, p@, iv, rs, i as int));
                }
                let ghost qkey = name@;
                query_types.insert(crate::text::copy_string(&name), fd.returns.copy());
                proof {
                    let q1 = query_types_upto(*schema, rs, i + 1);
                    assert(q1 == qs.insert(qkey, fd.returns@));
                    assert forall|k: Seq<char>| #[trigger] query_types.has(k) <==> q1.dom().contains(k) by {
                        assert(query_types.keys().to_set().contains(k) == query_types.has(k));
                        assert(qbefore.keys().to_set().contains(k) == qbefore.has(k));
                    }
                    assert forall|k: Seq<char>| #[trigger] query_types.has(k) implies query_types.spec_get(k)->0@ == q1[k] by {
                        if k != qkey {
                            assert(qbefore.has(k));
                        }
                    }
                }
                lowered.insert(name, ProjectionQueryDefinition { function, args: refs });
            },
        }
        proof {
            assert forall|k: Seq<char>| #[trigger] lowered.has(k) <==> exists|j: int| 0 <= j < i + 1 && query_first(rs, j) && rs[j].name@ == k by {
                assert(lowered.keys().to_set().contains(k) == lowered.has(k));
                assert(before.keys().to_set().contains(k) == before.has(k));
                if k == rs[i as int].name@ {
                    assert(query_first(rs, i as int) && rs[i as int].name@ == k);
                }
                if exists|j: int| 0 <= j < i + 1 && query_first(rs, j) && rs[j].name@ == k {
                    let j = choose|j: int| 0 <= j < i + 1 && query_first(rs, j) && rs[j].name@ == k;
                    if j < i {
                        assert(exists|j2: int| 0 <= j2 < i && query_first(rs, j2) && rs[j2].name@ == k);
                    }
                }
            }
            assert forall|j: int| 0 <= j < i + 1 && #[trigger] query_first(rs, j) implies (lowered.spec_get(rs[j].name@) matches Some(d)
                && d.function@ == rs[j].value.function@ && ref_views(d.args@) == raw_ref_views(rs[j].value.args@)) by {
                if j < i {
                    if names[j] == names[i as int] {
                        assert(names.take(i as int)[j] == names[i as int]);
                    }
                    assert(names[j] == rs[j].name@);
                }
            }
        }
        i = i + 1;
    }
    (lowered, query_types)
}

} // verus!
