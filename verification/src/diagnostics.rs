//! Diagnostics reported while loading a schema manifest.
use vstd::prelude::*;

verus! {

/// Stable diagnostic code such as `RECITE_SCHEMA001`.
#[derive(Clone, Debug, PartialEq, Eq)]
pub struct DiagnosticCode {
    pub code: String,
}

impl DiagnosticCode {
    /// A code from its text.
    pub fn new_static(code: &str) -> (r: Self)
        ensures
            r.code@ == code@,
    {
        DiagnosticCode { code: String::from_str(code) }
    }

    /// The code text.
    pub fn as_str(&self) -> (r: &str)
        ensures
            r@ == self.code@,
    {
        self.code.as_str()
    }
}

/// Structured argument attached to a diagnostic presentation.
#[derive(Clone, Debug, PartialEq, Eq)]
pub enum DiagnosticArgumentValue {
    String(String),
    Integer(i64),
}

/// Character-level view of a diagnostic argument.
pub enum ArgumentView {
    Text(Seq<char>),
    Integer(int),
}

impl View for DiagnosticArgumentValue {
    type V = ArgumentView;

    open spec fn view(&self) -> ArgumentView {
        match self {
            DiagnosticArgumentValue::String(s) => ArgumentView::Text(s@),
            DiagnosticArgumentValue::Integer(i) => ArgumentView::Integer(*i as int),
        }
    }
}

/// A one-based line and column in source text.
#[derive(Clone, Copy, Debug, PartialEq, Eq)]
pub struct SourcePosition {
    pub line: u32,
    pub column: u32,
}

impl SourcePosition {
    /// A position, when both coordinates are at least one.
    pub fn new(line: u32, column: u32) -> (r: Option<Self>)
        ensures
            r.is_some() == (line >= 1 && column >= 1),
            r matches Some(p) ==> p.line == line && p.column == column,
    {
        if line >= 1 && column >= 1 {
            Some(SourcePosition { line, column })
        } else {
            None
        }
    }
}

/// A source location: a file, a start position and an optional end.
#[derive(Clone, Debug, PartialEq, Eq)]
pub struct SourceSpan {
    pub file: String,
    pub start: SourcePosition,
    pub end: Option<SourcePosition>,
}

/// Character-level view of a span.
pub struct SpanView {
    pub file: Seq<char>,
    pub start: (u32, u32),
    pub end: Option<(u32, u32)>,
}

impl View for SourceSpan {
    type V = SpanView;

    open spec fn view(&self) -> SpanView {
        SpanView {
            file: self.file@,
            start: (self.start.line, self.start.column),
            end: match self.end {
                Some(p) => Some((p.line, p.column)),
                None => None,
            },
        }
    }
}

impl SourceSpan {
    /// A span covering a single position.
    pub fn point(file: &str, position: SourcePosition) -> (r: Self)
        ensures
            r.file@ == file@,
            r.start == position,
            r.end.is_none(),
    {
        SourceSpan { file: String::from_str(file), start: position, end: None }
    }

    /// A span from `start` to an optional `end`.
    pub fn new(file: &str, start: SourcePosition, end: Option<SourcePosition>) -> (r: Self)
        ensures
            r.file@ == file@,
            r.start == start,
            r.end == end,
    {
        SourceSpan { file: String::from_str(file), start, end }
    }

    /// A copy of this span.
    pub fn copy(&self) -> (r: Self)
        ensures
            r@ == self@,
    {
        SourceSpan { file: String::from_str(self.file.as_str()), start: self.start, end: self.end }
    }
}

/// Named arguments of a diagnostic presentation, in declaration order.
#[derive(Clone, Debug, PartialEq, Eq)]
pub struct DiagnosticArguments {
    pub entries: Vec<(String, DiagnosticArgumentValue)>,
}

/// Character-level view of a list of named arguments.
pub open spec fn arguments_view(entries: Seq<(String, DiagnosticArgumentValue)>) -> Seq<
    (Seq<char>, ArgumentView),
> {
    entries.map_values(|e: (String, DiagnosticArgumentValue)| (e.0@, e.1@))
}

impl DiagnosticArguments {
    /// The first argument with the given name.
    pub fn get(&self, name: &str) -> (r: Option<&DiagnosticArgumentValue>)
        ensures
            r.is_none() == (forall|i: int|
                0 <= i < self.entries@.len() ==> #[trigger] self.entries@[i].0@ != name@),
            r matches Some(v) ==> exists|i: int|
                0 <= i < self.entries@.len() && self.entries@[i].0@ == name@ && (forall|j: int|
                    0 <= j < i ==> #[trigger] self.entries@[j].0@ != name@) && *v
                    == #[trigger] self.entries@[i].1,
    {
        let mut i: usize = 0;
        while i < self.entries.len()
            invariant
                i <= self.entries@.len(),
                forall|j: int| 0 <= j < i ==> #[trigger] self.entries@[j].0@ != name@,
            decreases self.entries@.len() - i,
        {
            if crate::text::str_eq(self.entries[i].0.as_str(), name) {
                return Some(&self.entries[i].1);
            }
            i = i + 1;
        }
        None
    }
}

/// Structured presentation of a diagnostic: its presentation id and arguments.
#[derive(Clone, Debug, PartialEq, Eq)]
pub struct DiagnosticPresentation {
    pub id: String,
    pub args: DiagnosticArguments,
}

impl DiagnosticPresentation {
    /// The named arguments.
    pub fn arguments(&self) -> (r: &DiagnosticArguments)
        ensures
            *r == self.args,
    {
        &self.args
    }
}

/// Severity of a diagnostic.
#[derive(Clone, Copy, Debug, PartialEq, Eq)]
pub enum Severity {
    Error,
    Warning,
}

/// A located, coded problem report.
#[derive(Clone, Debug, PartialEq, Eq)]
pub struct Diagnostic {
    pub severity: Severity,
    pub code: DiagnosticCode,
    pub message: String,
    pub span: SourceSpan,
    pub presentation: Option<DiagnosticPresentation>,
}

impl Diagnostic {
    /// The presentation id, empty when there is no presentation.
    pub open spec fn presentation_id(&self) -> Seq<char> {
        match self.presentation {
            Some(p) => p.id@,
            None => Seq::empty(),
        }
    }

    /// The named arguments, empty when there is no presentation.
    pub open spec fn argument_views(&self) -> Seq<(Seq<char>, ArgumentView)> {
        match self.presentation {
            Some(p) => arguments_view(p.args.entries@),
            None => Seq::empty(),
        }
    }
}

/// The error diagnostic with the given code, presentation, message, span and arguments.
pub open spec fn is_schema_diagnostic(
    d: Diagnostic,
    code: Seq<char>,
    presentation_id: Seq<char>,
    message: Seq<char>,
    span: SpanView,
    arguments: Seq<(Seq<char>, ArgumentView)>,
) -> bool {
    &&& d.severity == Severity::Error
    &&& d.code.code@ == code
    &&& d.message@ == message
    &&& d.span@ == span
    &&& d.presentation is Some
    &&& d.presentation_id() == presentation_id
    &&& d.argument_views() == arguments
}

/// Construct a schema error diagnostic with a structured presentation.
pub fn schema_diagnostic(
    code: DiagnosticCode,
    presentation_id: &str,
    message: String,
    span: SourceSpan,
    arguments: Vec<(String, DiagnosticArgumentValue)>,
) -> (d: Diagnostic)
    ensures
        is_schema_diagnostic(
            d,
            code.code@,
            presentation_id@,
            message@,
            span@,
            arguments_view(arguments@),
        ),
{
    Diagnostic {
        severity: Severity::Error,
        code,
        message,
        span,
        presentation: Some(
            DiagnosticPresentation {
                id: String::from_str(presentation_id),
                args: DiagnosticArguments { entries: arguments },
            },
        ),
    }
}

/// A text argument.
pub fn text_arg(name: &str, value: &str) -> (r: (String, DiagnosticArgumentValue))
    ensures
        r.0@ == name@,
        r.1@ == ArgumentView::Text(value@),
{
    (String::from_str(name), DiagnosticArgumentValue::String(String::from_str(value)))
}

/// An integer argument.
pub fn integer_arg(name: &str, value: i64) -> (r: (String, DiagnosticArgumentValue))
    ensures
        r.0@ == name@,
        r.1@ == ArgumentView::Integer(value as int),
{
    (String::from_str(name), DiagnosticArgumentValue::Integer(value))
}

/// `RECITE_SCHEMA001`: the manifest has a malformed shape.
pub fn malformed_shape() -> (r: DiagnosticCode)
    ensures
        r.code@ == "RECITE_SCHEMA001"@,
{
    DiagnosticCode::new_static("RECITE_SCHEMA001")
}

/// `RECITE_SCHEMA002`: the manifest declares an unsupported version.
pub fn unsupported_version() -> (r: DiagnosticCode)
    ensures
        r.code@ == "RECITE_SCHEMA002"@,
{
    DiagnosticCode::new_static("RECITE_SCHEMA002")
}

/// `RECITE_SCHEMA003`: a definition or value is repeated.
pub fn duplicate_definition_code() -> (r: DiagnosticCode)
    ensures
        r.code@ == "RECITE_SCHEMA003"@,
{
    DiagnosticCode::new_static("RECITE_SCHEMA003")
}

/// `RECITE_SCHEMA004`: a reference names something that is not declared.
pub fn invalid_type_reference() -> (r: DiagnosticCode)
    ensures
        r.code@ == "RECITE_SCHEMA004"@,
{
    DiagnosticCode::new_static("RECITE_SCHEMA004")
}


/// What a schema diagnostic states: code, presentation id, message, span and arguments.
pub struct DiagnosticView {
    pub code: Seq<char>,
    pub presentation_id: Seq<char>,
    pub message: Seq<char>,
    pub span: SpanView,
    pub arguments: Seq<(Seq<char>, ArgumentView)>,
}

/// `d` is the schema error diagnostic that `v` describes.
pub open spec fn diagnostic_is(d: Diagnostic, v: DiagnosticView) -> bool {
    is_schema_diagnostic(d, v.code, v.presentation_id, v.message, v.span, v.arguments)
}

/// `ds` are, in order, the diagnostics that `vs` describe.
pub open spec fn diagnostics_are(ds: Seq<Diagnostic>, vs: Seq<DiagnosticView>) -> bool {
    ds.len() == vs.len() && forall|i: int| 0 <= i < ds.len() ==> diagnostic_is(#[trigger] ds[i], vs[i])
}

/// `new` is `old` followed by the diagnostics that `vs` describe.
pub open spec fn appended(old: Seq<Diagnostic>, new: Seq<Diagnostic>, vs: Seq<DiagnosticView>) -> bool {
    &&& old.len() <= new.len()
    &&& new.subrange(0, old.len() as int) == old
    &&& diagnostics_are(new.subrange(old.len() as int, new.len() as int), vs)
}

/// Appending a described diagnostic extends the described suffix.
pub proof fn lemma_appended_push(
    old: Seq<Diagnostic>,
    mid: Seq<Diagnostic>,
    vs: Seq<DiagnosticView>,
    d: Diagnostic,
    v: DiagnosticView,
)
    requires
        appended(old, mid, vs),
        diagnostic_is(d, v),
    ensures
        appended(old, mid.push(d), vs.push(v)),
{
    let new = mid.push(d);
    assert(new.subrange(0, old.len() as int) =~= old);
    let a = mid.subrange(old.len() as int, mid.len() as int);
    let b = new.subrange(old.len() as int, new.len() as int);
    assert(b =~= a.push(d));
    assert forall|i: int| 0 <= i < b.len() implies diagnostic_is(#[trigger] b[i], vs.push(v)[i]) by {
        if i < a.len() {
            assert(b[i] == a[i]);
        }
    }
}

/// Appending nothing.
pub proof fn lemma_appended_none(old: Seq<Diagnostic>)
    ensures
        appended(old, old, Seq::empty()),
{
    assert(old.subrange(0, old.len() as int) =~= old);
    assert(old.subrange(old.len() as int, old.len() as int) =~= Seq::<Diagnostic>::empty());
}

/// Appended runs compose.
pub proof fn lemma_appended_trans(
    a: Seq<Diagnostic>,
    b: Seq<Diagnostic>,
    c: Seq<Diagnostic>,
    v1: Seq<DiagnosticView>,
    v2: Seq<DiagnosticView>,
)
    requires
        appended(a, b, v1),
        appended(b, c, v2),
    ensures
        appended(a, c, v1 + v2),
{
    assert(c.subrange(0, a.len() as int) =~= b.subrange(0, a.len() as int));
    let x = b.subrange(a.len() as int, b.len() as int);
    let y = c.subrange(b.len() as int, c.len() as int);
    let z = c.subrange(a.len() as int, c.len() as int);
    assert(z =~= x + y);
    assert forall|i: int| 0 <= i < z.len() implies diagnostic_is(#[trigger] z[i], (v1 + v2)[i]) by {
        if i < x.len() {
            assert(z[i] == x[i]);
        } else {
            assert(z[i] == y[i - x.len()]);
        }
    }
}


/// What a diagnostic reports apart from where: code, presentation id,
/// message and arguments.
pub struct Problem {
    pub code: Seq<char>,
    pub presentation_id: Seq<char>,
    pub message: Seq<char>,
    pub arguments: Seq<(Seq<char>, ArgumentView)>,
}

/// `d` is a schema error diagnostic reporting `p`, at some span.
pub open spec fn reports(d: Diagnostic, p: Problem) -> bool {
    is_schema_diagnostic(d, p.code, p.presentation_id, p.message, d.span@, p.arguments)
}

/// The problem a described diagnostic reports.
pub open spec fn problem_of(v: DiagnosticView) -> Problem {
    Problem { code: v.code, presentation_id: v.presentation_id, message: v.message, arguments: v.arguments }
}

/// `new` is `old` followed by diagnostics reporting `ps`, in order.
pub open spec fn reported(old: Seq<Diagnostic>, new: Seq<Diagnostic>, ps: Seq<Problem>) -> bool {
    &&& old.len() <= new.len()
    &&& new.subrange(0, old.len() as int) == old
    &&& new.len() - old.len() == ps.len()
    &&& forall|i: int| 0 <= i < ps.len() ==> reports(#[trigger] new[old.len() + i], ps[i])
}

/// `b` begins with `a`.
pub open spec fn extends(a: Seq<Diagnostic>, b: Seq<Diagnostic>) -> bool {
    a.len() <= b.len() && b.subrange(0, a.len() as int) == a
}

/// Extension is transitive.
pub proof fn lemma_extends_trans(a: Seq<Diagnostic>, b: Seq<Diagnostic>, c: Seq<Diagnostic>)
    requires
        extends(a, b),
        extends(b, c),
    ensures
        extends(a, c),
{
    assert(c.subrange(0, a.len() as int) =~= b.subrange(0, a.len() as int));
}

/// Reporting nothing.
pub proof fn lemma_reported_none(old: Seq<Diagnostic>)
    ensures
        reported(old, old, Seq::empty()),
{
    assert(old.subrange(0, old.len() as int) =~= old);
}

/// Reporting one more diagnostic.
/// One problem reported into an empty list is its only diagnostic.
pub proof fn lemma_reported_only(new: Seq<Diagnostic>, p: Problem)
    requires
        reported(Seq::empty(), new, seq![p]),
    ensures
        new.len() == 1,
        reports(new[0], p),
{
    let e = Seq::<Diagnostic>::empty();
    assert(reports(new[e.len() + 0int], seq![p][0]));
}

pub proof fn lemma_reported_push(old: Seq<Diagnostic>, mid: Seq<Diagnostic>, ps: Seq<Problem>, d: Diagnostic, p: Problem)
    requires
        reported(old, mid, ps),
        reports(d, p),
    ensures
        reported(old, mid.push(d), ps.push(p)),
{
    let new = mid.push(d);
    assert(new.subrange(0, old.len() as int) =~= mid.subrange(0, old.len() as int));
    assert forall|i: int| 0 <= i < ps.push(p).len() implies reports(#[trigger] new[old.len() + i], ps.push(p)[i]) by {
        if i < ps.len() {
            assert(new[old.len() + i] == mid[old.len() + i]);
        }
    }
}

/// Reported runs compose.
pub proof fn lemma_reported_trans(
    a: Seq<Diagnostic>,
    b: Seq<Diagnostic>,
    c: Seq<Diagnostic>,
    p1: Seq<Problem>,
    p2: Seq<Problem>,
)
    requires
        reported(a, b, p1),
        reported(b, c, p2),
    ensures
        reported(a, c, p1 + p2),
{
    assert(c.subrange(0, a.len() as int) =~= b.subrange(0, a.len() as int));
    assert forall|i: int| 0 <= i < (p1 + p2).len() implies reports(#[trigger] c[a.len() + i], (p1 + p2)[i]) by {
        if i < p1.len() {
            assert(c[a.len() + i] == c.subrange(0, b.len() as int)[a.len() + i]);
            assert(b[a.len() + i] == c[a.len() + i]);
        } else {
            assert(c[b.len() + (i - p1.len())] == c[a.len() + i]);
        }
    }
}

/// The problem of a diagnostic with the given code, presentation, message and arguments.
pub open spec fn problem_with(
    code: Seq<char>,
    presentation_id: Seq<char>,
    message: Seq<char>,
    arguments: Seq<(Seq<char>, ArgumentView)>,
) -> Problem {
    Problem { code, presentation_id, message, arguments }
}

/// Append a schema error diagnostic.
pub fn report(
    diagnostics: &mut Vec<Diagnostic>,
    code: DiagnosticCode,
    presentation_id: &str,
    message: String,
    span: SourceSpan,
    arguments: Vec<(String, DiagnosticArgumentValue)>,
)
    ensures
        reported(
            old(diagnostics)@,
            final(diagnostics)@,
            seq![problem_with(code.code@, presentation_id@, message@, arguments_view(arguments@))],
        ),
{
    let ghost p = problem_with(code.code@, presentation_id@, message@, arguments_view(arguments@));
    let d = schema_diagnostic(code, presentation_id, message, span, arguments);
    proof {
        lemma_reported_none(diagnostics@);
        lemma_reported_push(diagnostics@, diagnostics@, Seq::empty(), d, p);
        assert(Seq::<Problem>::empty().push(p) =~= seq![p]);
    }
    diagnostics.push(d);
}

} // verus!
