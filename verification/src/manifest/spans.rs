//! Source spans of manifest entries, found by scanning the JSON text.
//!
//! Offsets here are character indices into the source; a position counts
//! lines and columns from one.
use vstd::prelude::*;
use crate::collections::StrMap;
use crate::diagnostics::{SourcePosition, SourceSpan};
use crate::text::is_white_space;

verus! {

/// Line and column (both from one) of character index `i`, saturating at `u32::MAX`.
pub open spec fn line_col(s: Seq<char>, i: int) -> (u32, u32)
    decreases i,
{
    if i <= 0 || s.len() == 0 {
        (1, 1)
    } else {
        let (l, c) = line_col(s, i - 1);
        if i - 1 < s.len() && s[i - 1] == '\n' {
            (if l == u32::MAX { l } else { (l + 1) as u32 }, 1)
        } else if i - 1 < s.len() {
            (l, if c == u32::MAX { c } else { (c + 1) as u32 })
        } else {
            (l, c)
        }
    }
}

proof fn lemma_line_col_positive(s: Seq<char>, i: int)
    ensures
        line_col(s, i).0 >= 1,
        line_col(s, i).1 >= 1,
    decreases i,
{
    if i > 0 && s.len() > 0 {
        lemma_line_col_positive(s, i - 1);
    }
}

/// The position of character index `offset` in `source`.
pub fn position_for_offset(source: &[char], offset: usize) -> (r: SourcePosition)
    ensures
        (r.line, r.column) == line_col(source@, offset as int),
{
    let mut line: u32 = 1;
    let mut column: u32 = 1;
    let mut i: usize = 0;
    let n = if offset < source.len() { offset } else { source.len() };
    while i < n
        invariant
            i <= n,
            n <= source@.len(),
            n <= offset,
            (line, column) == line_col(source@, i as int),
        decreases n - i,
    {
        if source[i] == '\n' {
            line = if line == u32::MAX { line } else { line + 1 };
            column = 1;
        } else {
            column = if column == u32::MAX { column } else { column + 1 };
        }
        i = i + 1;
    }
    proof {
        lemma_line_col_positive(source@, i as int);
        lemma_line_col_past_end(source@, n as int, offset as int);
    }
    SourcePosition { line, column }
}

proof fn lemma_line_col_past_end(s: Seq<char>, n: int, offset: int)
    requires
        0 <= n <= offset,
        n == offset || n == s.len(),
    ensures
        line_col(s, offset) == line_col(s, n),
    decreases offset - n,
{
    if offset > n {
        lemma_line_col_past_end(s, n, offset - 1);
    }
}

/// A span at the start of the document.
pub fn document_start_span(file: &str) -> (r: SourceSpan)
    ensures
        r.file@ == file@,
        r.start.line == 1 && r.start.column == 1,
        r.end.is_none(),
{
    SourceSpan::point(file, SourcePosition { line: 1, column: 1 })
}

/// The JSON string escape of `s`: each `\` and `"` gets a preceding `\`.
pub open spec fn escape_json(s: Seq<char>) -> Seq<char>
    decreases s.len(),
{
    if s.len() == 0 {
        Seq::empty()
    } else {
        let c = s.last();
        escape_json(s.drop_last()) + if c == '\\' || c == '"' {
            seq!['\\', c]
        } else {
            seq![c]
        }
    }
}

/// `"` + escaped `s` + `"`.
pub open spec fn quoted(s: Seq<char>) -> Seq<char> {
    seq!['"'] + escape_json(s) + seq!['"']
}

/// The quoted, escaped form of `value`.
pub fn quote_json_string(value: &str) -> (r: Vec<char>)
    ensures
        r@ == quoted(value@),
{
    let s = crate::text::str_chars(value);
    let mut r: Vec<char> = Vec::new();
    r.push('"');
    let mut i: usize = 0;
    while i < s.len()
        invariant
            i <= s@.len(),
            r@ == seq!['"'] + escape_json(s@.subrange(0, i as int)),
        decreases s@.len() - i,
    {
        let c = s[i];
        let ghost before = r@;
        if c == '\\' || c == '"' {
            r.push('\\');
        }
        r.push(c);
        proof {
            assert(s@.subrange(0, i + 1).drop_last() =~= s@.subrange(0, i as int));
            assert(r@ =~= seq!['"'] + escape_json(s@.subrange(0, i + 1)));
        }
        i = i + 1;
    }
    r.push('"');
    assert(s@.subrange(0, s@.len() as int) =~= s@);
    assert(r@ =~= quoted(value@));
    r
}

/// `needle` occurs in `hay` at index `k`.
pub open spec fn occurs_at(hay: Seq<char>, needle: Seq<char>, k: int) -> bool {
    0 <= k && k + needle.len() <= hay.len() && hay.subrange(k, k + needle.len()) == needle
}

/// The first index in `from..` at which `needle` occurs wholly before `to`.
pub open spec fn find_in(hay: Seq<char>, needle: Seq<char>, from: int, to: int) -> Option<int>
    decreases to + 1 - from,
{
    if from < 0 || from + needle.len() > to {
        None
    } else if occurs_at(hay, needle, from) {
        Some(from)
    } else {
        find_in(hay, needle, from + 1, to)
    }
}

fn occurs_at_exec(hay: &[char], needle: &[char], k: usize) -> (r: bool)
    requires
        k + needle@.len() <= hay@.len(),
    ensures
        r == occurs_at(hay@, needle@, k as int),
{
    let hl = hay.len();
    let mut j: usize = 0;
    while j < needle.len()
        invariant
            j <= needle@.len(),
            hl == hay@.len(),
            k + needle@.len() <= hay@.len(),
            forall|t: int| 0 <= t < j ==> hay@[k + t] == needle@[t],
        decreases needle@.len() - j,
    {
        if hay[k + j] != needle[j] {
            assert(hay@.subrange(k as int, k + needle@.len())[j as int] != needle@[j as int]);
            return false;
        }
        j = j + 1;
    }
    assert(hay@.subrange(k as int, k + needle@.len()) =~= needle@);
    true
}

/// The first occurrence of `needle` in `hay[from..to]`.
pub fn find_chars(hay: &[char], needle: &[char], from: usize, to: usize) -> (r: Option<usize>)
    requires
        to <= hay@.len(),
    ensures
        match r {
            Some(k) => find_in(hay@, needle@, from as int, to as int) == Some(k as int),
            None => find_in(hay@, needle@, from as int, to as int) is None,
        },
    decreases to + 1 - from,
{
    if from > to || to - from < needle.len() {
        return None;
    }
    if occurs_at_exec(hay, needle, from) {
        return Some(from);
    }
    if from >= to {
        proof {
            assert(hay@.subrange(from as int, from as int) =~= needle@);
        }
        return None;
    }
    find_chars(hay, needle, from + 1, to)
}

/// The span of the first occurrence of the quoted `needle` in `source`.
pub fn string_span(file: &str, source: &[char], needle: &str) -> (r: Option<SourceSpan>)
    ensures
        match r {
            Some(span) => {
                &&& find_in(source@, quoted(needle@), 0, source@.len() as int) is Some
                &&& span.file@ == file@
                &&& (span.start.line, span.start.column) == line_col(
                    source@,
                    find_in(source@, quoted(needle@), 0, source@.len() as int)->0,
                )
                &&& span.end == Some(
                    SourcePosition {
                        line: line_col(
                            source@,
                            find_in(source@, quoted(needle@), 0, source@.len() as int)->0
                                + quoted(needle@).len(),
                        ).0,
                        column: line_col(
                            source@,
                            find_in(source@, quoted(needle@), 0, source@.len() as int)->0
                                + quoted(needle@).len(),
                        ).1,
                    },
                )
            },
            None => find_in(source@, quoted(needle@), 0, source@.len() as int) is None,
        },
{
    let q = quote_json_string(needle);
    match find_chars(source, &q, 0, source.len()) {
        Some(start) => {
            proof {
                lemma_find_in_bounds(source@, q@, 0, source@.len() as int);
            }
            let end = start + q.len();
            Some(
                SourceSpan::new(
                    file,
                    position_for_offset(source, start),
                    Some(position_for_offset(source, end)),
                ),
            )
        },
        None => None,
    }
}

proof fn lemma_find_in_bounds(hay: Seq<char>, needle: Seq<char>, from: int, to: int)
    ensures
        find_in(hay, needle, from, to) matches Some(k) ==> from <= k && k + needle.len() <= to
            && occurs_at(hay, needle, k),
    decreases to + 1 - from,
{
    if !(from < 0 || from + needle.len() > to) && !occurs_at(hay, needle, from) {
        lemma_find_in_bounds(hay, needle, from + 1, to);
    }
}

/// `r` is the span from character `a` to character `b` of `s` in `file`.
pub open spec fn span_of(r: SourceSpan, file: Seq<char>, s: Seq<char>, a: int, b: int) -> bool {
    &&& r.file@ == file
    &&& (r.start.line, r.start.column) == line_col(s, a)
    &&& r.end matches Some(e) && (e.line, e.column) == line_col(s, b)
}

/// `r` is the start of the document `file`.
pub open spec fn at_document_start(r: SourceSpan, file: Seq<char>) -> bool {
    r.file@ == file && r.start.line == 1 && r.start.column == 1 && r.end is None
}

/// The span of a key: its first quoted occurrence, else the document start.
pub fn key_span(file: &str, source: &[char], key: &str) -> (r: SourceSpan)
    ensures
        r.file@ == file@,
        match find_in(source@, quoted(key@), 0, source@.len() as int) {
            Some(k) => span_of(r, file@, source@, k, k + quoted(key@).len()),
            None => at_document_start(r, file@),
        },
{
    match string_span(file, source, key) {
        Some(span) => span,
        None => document_start_span(file),
    }
}


// ---------------------------------------------------------------------------
// Top-level sections of a JSON document.

pub open spec fn sat_inc(d: u32) -> u32 {
    if d == u32::MAX { d } else { (d + 1) as u32 }
}

pub open spec fn sat_dec(d: u32) -> u32 {
    if d == 0 { d } else { (d - 1) as u32 }
}

/// The first character at or after `i` that is not white space.
pub open spec fn next_non_ws(s: Seq<char>, i: int) -> Option<char>
    decreases s.len() - i,
{
    if i < 0 || i >= s.len() {
        None
    } else if !is_white_space(s[i]) {
        Some(s[i])
    } else {
        next_non_ws(s, i + 1)
    }
}

/// Index of the first non-white-space character at or after `i`.
pub open spec fn next_non_ws_index(s: Seq<char>, i: int) -> Option<int>
    decreases s.len() - i,
{
    if i < 0 || i >= s.len() {
        None
    } else if !is_white_space(s[i]) {
        Some(i)
    } else {
        next_non_ws_index(s, i + 1)
    }
}

/// Index of the first `:` at or after `i`.
pub open spec fn next_colon(s: Seq<char>, i: int) -> Option<int>
    decreases s.len() - i,
{
    if i < 0 || i >= s.len() {
        None
    } else if s[i] == ':' {
        Some(i)
    } else {
        next_colon(s, i + 1)
    }
}

/// Start of the value after the key that ends at `key_end`.
pub open spec fn value_start_after(s: Seq<char>, key_end: int) -> Option<int> {
    match next_colon(s, key_end) {
        Some(c) => next_non_ws_index(s, c + 1),
        None => None,
    }
}

/// Scan an object or array for its matching close; returns the index just after it.
pub open spec fn bracket_scan(
    s: Seq<char>,
    i: int,
    opening: char,
    closing: char,
    depth: u32,
    in_string: bool,
    escaped: bool,
) -> Option<int>
    decreases s.len() - i,
{
    if i < 0 || i >= s.len() {
        None
    } else {
        let c = s[i];
        if in_string {
            if escaped {
                bracket_scan(s, i + 1, opening, closing, depth, true, false)
            } else if c == '\\' {
                bracket_scan(s, i + 1, opening, closing, depth, true, true)
            } else if c == '"' {
                bracket_scan(s, i + 1, opening, closing, depth, false, false)
            } else {
                bracket_scan(s, i + 1, opening, closing, depth, true, false)
            }
        } else if c == '"' {
            bracket_scan(s, i + 1, opening, closing, depth, true, escaped)
        } else if c == opening {
            bracket_scan(s, i + 1, opening, closing, sat_inc(depth), false, escaped)
        } else if c == closing {
            if sat_dec(depth) == 0 {
                Some(i + 1)
            } else {
                bracket_scan(s, i + 1, opening, closing, sat_dec(depth), false, escaped)
            }
        } else {
            bracket_scan(s, i + 1, opening, closing, depth, false, escaped)
        }
    }
}

/// End of the value that starts at `start`: past its matching bracket for an
/// object or array, else just past its first character.
pub open spec fn value_end_at(s: Seq<char>, start: int) -> Option<int> {
    if start < 0 || start >= s.len() {
        None
    } else if s[start] == '{' {
        bracket_scan(s, start, '{', '}', 0, false, false)
    } else if s[start] == '[' {
        bracket_scan(s, start, '[', ']', 0, false, false)
    } else {
        Some(start + 1)
    }
}

/// Scan for the top-level key `section`, returning its value's range.
pub open spec fn section_scan(
    s: Seq<char>,
    section: Seq<char>,
    i: int,
    depth: u32,
    in_string: bool,
    escaped: bool,
    start: int,
) -> Option<(int, int)>
    decreases s.len() - i,
{
    if i < 0 || i >= s.len() {
        None
    } else {
        let c = s[i];
        if in_string {
            if escaped {
                section_scan(s, section, i + 1, depth, true, false, start)
            } else if c == '\\' {
                section_scan(s, section, i + 1, depth, true, true, start)
            } else if c == '"' {
                if depth == 1 && 0 <= start < i && s.subrange(start + 1, i) == section && next_non_ws(
                    s,
                    i + 1,
                ) == Some(':') {
                    match value_start_after(s, i + 1) {
                        Some(vs) => match value_end_at(s, vs) {
                            Some(ve) => Some((vs, ve)),
                            None => None,
                        },
                        None => None,
                    }
                } else {
                    section_scan(s, section, i + 1, depth, false, false, start)
                }
            } else {
                section_scan(s, section, i + 1, depth, true, false, start)
            }
        } else if c == '"' {
            section_scan(s, section, i + 1, depth, true, escaped, i)
        } else if c == '{' || c == '[' {
            section_scan(s, section, i + 1, sat_inc(depth), false, escaped, start)
        } else if c == '}' || c == ']' {
            section_scan(s, section, i + 1, sat_dec(depth), false, escaped, start)
        } else {
            section_scan(s, section, i + 1, depth, false, escaped, start)
        }
    }
}

/// The range of the value of the top-level key `section`.
pub open spec fn section_range(s: Seq<char>, section: Seq<char>) -> Option<(int, int)> {
    section_scan(s, section, 0, 0, false, false, 0)
}

fn next_non_whitespace(s: &[char], i: usize) -> (r: Option<usize>)
    requires
        i <= s@.len(),
    ensures
        match r {
            Some(k) => next_non_ws_index(s@, i as int) == Some(k as int) && next_non_ws(s@, i as int)
                == Some(s@[k as int]) && k < s@.len(),
            None => next_non_ws_index(s@, i as int) is None && next_non_ws(s@, i as int) is None,
        },
    decreases s@.len() - i,
{
    if i >= s.len() {
        return None;
    }
    if !crate::text::white_space(s[i]) {
        return Some(i);
    }
    next_non_whitespace(s, i + 1)
}

fn find_colon(s: &[char], i: usize) -> (r: Option<usize>)
    requires
        i <= s@.len(),
    ensures
        match r {
            Some(k) => next_colon(s@, i as int) == Some(k as int) && k < s@.len(),
            None => next_colon(s@, i as int) is None,
        },
    decreases s@.len() - i,
{
    if i >= s.len() {
        return None;
    }
    if s[i] == ':' {
        return Some(i);
    }
    find_colon(s, i + 1)
}

fn section_value_start(s: &[char], key_end: usize) -> (r: Option<usize>)
    requires
        key_end <= s@.len(),
    ensures
        match r {
            Some(k) => value_start_after(s@, key_end as int) == Some(k as int) && k < s@.len(),
            None => value_start_after(s@, key_end as int) is None,
        },
{
    let n = s.len();
    match find_colon(s, key_end) {
        Some(c) => next_non_whitespace(s, c + 1),
        None => None,
    }
}

fn value_end(s: &[char], start: usize) -> (r: Option<usize>)
    ensures
        match r {
            Some(k) => value_end_at(s@, start as int) == Some(k as int) && k <= s@.len(),
            None => value_end_at(s@, start as int) is None,
        },
{
    if start >= s.len() {
        return None;
    }
    let opening = s[start];
    let closing = if opening == '{' {
        '}'
    } else if opening == '[' {
        ']'
    } else {
        return Some(start + 1);
    };
    let mut depth: u32 = 0;
    let mut in_string = false;
    let mut escaped = false;
    let mut i = start;
    while i < s.len()
        invariant
            start <= i <= s@.len(),
            opening == s@[start as int],
            opening == '{' || opening == '[',
            closing == (if opening == '{' { '}' } else { ']' }),
            value_end_at(s@, start as int) == bracket_scan(s@, i as int, opening, closing, depth, in_string, escaped),
        decreases s@.len() - i,
    {
        let c = s[i];
        if in_string {
            if escaped {
                escaped = false;
            } else if c == '\\' {
                escaped = true;
            } else if c == '"' {
                in_string = false;
            }
        } else if c == '"' {
            in_string = true;
        } else if c == opening {
            depth = if depth == u32::MAX { depth } else { depth + 1 };
        } else if c == closing {
            depth = if depth == 0 { depth } else { depth - 1 };
            if depth == 0 {
                return Some(i + 1);
            }
        }
        i = i + 1;
    }
    None
}

/// The range of the value of the top-level key `section` of the JSON text.
pub fn source_section_range(source: &[char], section: &str) -> (r: Option<(usize, usize)>)
    ensures
        match r {
            Some((a, b)) => section_range(source@, section@) == Some((a as int, b as int)) && a <= b
                <= source@.len(),
            None => section_range(source@, section@) is None,
        },
{
    let sec = crate::text::str_chars(section);
    let mut depth: u32 = 0;
    let mut in_string = false;
    let mut escaped = false;
    let mut string_start: usize = 0;
    let mut i: usize = 0;
    while i < source.len()
        invariant
            i <= source@.len(),
            sec@ == section@,
            string_start <= i,
            section_range(source@, section@) == section_scan(
                source@,
                section@,
                i as int,
                depth,
                in_string,
                escaped,
                string_start as int,
            ),
        decreases source@.len() - i,
    {
        let c = source[i];
        if in_string {
            if escaped {
                escaped = false;
            } else if c == '\\' {
                escaped = true;
            } else if c == '"' {
                in_string = false;
                if depth == 1 && string_start < i {
                    let content = slice(source, string_start + 1, i);
                    if crate::text::chars_eq(&content, &sec) {
                        match next_non_whitespace(source, i + 1) {
                            Some(k) => {
                                if source[k] == ':' {
                                    let vs = match section_value_start(source, i + 1) {
                                        Some(v) => v,
                                        None => return None,
                                    };
                                    let ve = match value_end(source, vs) {
                                        Some(v) => v,
                                        None => return None,
                                    };
                                    proof {
                                        lemma_bracket_scan_after(source@, vs as int);
                                    }
                                    return Some((vs, ve));
                                }
                            },
                            None => {},
                        }
                    }
                }
            }
            i = i + 1;
            continue;
        }
        if c == '"' {
            in_string = true;
            string_start = i;
        } else if c == '{' || c == '[' {
            depth = if depth == u32::MAX { depth } else { depth + 1 };
        } else if c == '}' || c == ']' {
            depth = if depth == 0 { depth } else { depth - 1 };
        }
        i = i + 1;
    }
    None
}

proof fn lemma_bracket_scan_after(s: Seq<char>, vs: int)
    ensures
        value_end_at(s, vs) matches Some(e) ==> vs < e,
{
    if 0 <= vs < s.len() && (s[vs] == '{' || s[vs] == '[') {
        let (o, c) = if s[vs] == '{' { ('{', '}') } else { ('[', ']') };
        lemma_bracket_scan_bound(s, vs, o, c, 0, false, false);
    }
}

proof fn lemma_bracket_scan_bound(
    s: Seq<char>,
    i: int,
    opening: char,
    closing: char,
    depth: u32,
    in_string: bool,
    escaped: bool,
)
    ensures
        bracket_scan(s, i, opening, closing, depth, in_string, escaped) matches Some(e) ==> i < e,
    decreases s.len() - i,
{
    if 0 <= i < s.len() {
        let c = s[i];
        if in_string {
            if escaped {
                lemma_bracket_scan_bound(s, i + 1, opening, closing, depth, true, false);
            } else if c == '\\' {
                lemma_bracket_scan_bound(s, i + 1, opening, closing, depth, true, true);
            } else if c == '"' {
                lemma_bracket_scan_bound(s, i + 1, opening, closing, depth, false, false);
            } else {
                lemma_bracket_scan_bound(s, i + 1, opening, closing, depth, true, false);
            }
        } else if c == '"' {
            lemma_bracket_scan_bound(s, i + 1, opening, closing, depth, true, escaped);
        } else if c == opening {
            lemma_bracket_scan_bound(s, i + 1, opening, closing, sat_inc(depth), false, escaped);
        } else if c == closing {
            lemma_bracket_scan_bound(s, i + 1, opening, closing, sat_dec(depth), false, escaped);
        } else {
            lemma_bracket_scan_bound(s, i + 1, opening, closing, depth, false, escaped);
        }
    }
}

fn slice(s: &[char], a: usize, b: usize) -> (r: Vec<char>)
    requires
        a <= b <= s@.len(),
    ensures
        r@ == s@.subrange(a as int, b as int),
{
    let mut r: Vec<char> = Vec::new();
    let mut i = a;
    while i < b
        invariant
            a <= i <= b,
            b <= s@.len(),
            r@ == s@.subrange(a as int, i as int),
        decreases b - i,
    {
        r.push(s[i]);
        i = i + 1;
        assert(r@ =~= s@.subrange(a as int, i as int));
    }
    r
}


// ---------------------------------------------------------------------------
// Successive spans within the active section.

/// Text formats a manifest is read from.
#[derive(Clone, Copy, Debug, PartialEq, Eq, Structural)]
pub enum ManifestSourceFormat {
    Json,
    Toml,
}

/// Span lookup state for one lowering pass: the active top-level section
/// and, per needle, where the next search starts, so that repeated needles
/// find successive occurrences.
pub struct ManifestSpans {
    next_offsets: StrMap<usize>,
    active_range: Option<(usize, usize)>,
    format: ManifestSourceFormat,
}

impl ManifestSpans {
    /// Span state for a manifest in the given format, with no active section.
    pub fn new_with_format(format: ManifestSourceFormat) -> (r: Self)
        ensures
            r.active() is None,
            r.source_format() == format,
    {
        ManifestSpans { next_offsets: StrMap::new(), active_range: None, format }
    }

    /// The active section's value range.
    pub closed spec fn active(&self) -> Option<(usize, usize)> {
        self.active_range
    }

    /// The source format.
    pub closed spec fn source_format(&self) -> ManifestSourceFormat {
        self.format
    }

    /// Make the top-level key `section` the active section; searches restart.
    pub fn enter_section(&mut self, source: &[char], section: &str)
        ensures
            final(self).source_format() == old(self).source_format(),
            final(self).active() == (match old(self).source_format() {
                ManifestSourceFormat::Json => match section_range(source@, section@) {
                    Some((a, b)) => Some((a as usize, b as usize)),
                    None => None,
                },
                ManifestSourceFormat::Toml => None,
            }),
    {
        self.active_range = match self.format {
            ManifestSourceFormat::Json => source_section_range(source, section),
            ManifestSourceFormat::Toml => None,
        };
        self.next_offsets = StrMap::new();
    }

    /// The span of the next occurrence of the quoted `needle` in the active
    /// section (the whole text when none is active), after the previous
    /// occurrence found for the same needle; the document start when there
    /// is none. A TOML source has no text index here and gets the document start.
    pub fn next_string_span(&mut self, file: &str, source: &[char], needle: &str) -> (r: SourceSpan)
        ensures
            r.file@ == file@,
            old(self).source_format() == ManifestSourceFormat::Toml ==> at_document_start(r, file@),
            at_document_start(r, file@) || exists|k: int| {
                &&& occurs_at(source@, quoted(needle@), k)
                &&& span_of(r, file@, source@, k, k + quoted(needle@).len())
                &&& (old(self).active() matches Some((a, b)) ==> a <= k && k + quoted(needle@).len() <= b)
            },
            final(self).active() == old(self).active(),
            final(self).source_format() == old(self).source_format(),
    {
        if self.format == ManifestSourceFormat::Toml {
            return document_start_span(file);
        }
        let q = quote_json_string(needle);
        let n = source.len();
        let (start, end) = match self.active_range {
            Some((a, b)) => (a, if b <= n { b } else { n }),
            None => (0, n),
        };
        let mut search_key = crate::text::decimal_string(start);
        crate::text::push_text(&mut search_key, ":");
        crate::text::push_text(&mut search_key, needle);
        let search_start = match self.next_offsets.get(search_key.as_str()) {
            Some(o) => if *o < start { start } else { *o },
            None => start,
        };
        if search_start > end {
            return document_start_span(file);
        }
        match find_chars(source, &q, search_start, end) {
            Some(k) => {
                proof {
                    lemma_find_in_bounds(source@, q@, search_start as int, end as int);
                }
                let stop = k + q.len();
                assert(occurs_at(source@, quoted(needle@), k as int));
                self.next_offsets.insert(search_key, stop);
                SourceSpan::new(
                    file,
                    position_for_offset(source, k),
                    Some(position_for_offset(source, stop)),
                )
            },
            None => document_start_span(file),
        }
    }

    /// The span of a top-level key: its quoted occurrence as a key of the
    /// root object, else the document start.
    pub fn root_key_span(&self, file: &str, source: &[char], key: &str) -> (r: SourceSpan)
        ensures
            r.file@ == file@,
            match (self.source_format(), key_range(source@, key@)) {
                (ManifestSourceFormat::Json, Some((a, b))) => span_of(r, file@, source@, a, b),
                _ => at_document_start(r, file@),
            },
    {
        if self.format == ManifestSourceFormat::Toml {
            return document_start_span(file);
        }
        top_level_key_span(file, source, key)
    }

    /// The span of `value_key` within the top-level object `object_key`,
    /// else the document start.
    pub fn root_object_value_span(&self, file: &str, source: &[char], object_key: &str, value_key: &str) -> (r: SourceSpan)
        ensures
            r.file@ == file@,
            match (self.source_format(), section_range(source@, object_key@)) {
                (ManifestSourceFormat::Json, Some((a, b))) => match find_in(source@, quoted(value_key@), a, b) {
                    Some(k) => span_of(r, file@, source@, k, k + quoted(value_key@).len()),
                    None => at_document_start(r, file@),
                },
                _ => at_document_start(r, file@),
            },
    {
        if self.format == ManifestSourceFormat::Toml {
            return document_start_span(file);
        }
        match source_section_range(source, object_key) {
            Some((a, b)) => {
                let q = quote_json_string(value_key);
                match find_chars(source, &q, a, b) {
                    Some(k) => {
                        proof {
                            lemma_find_in_bounds(source@, q@, a as int, b as int);
                        }
                        SourceSpan::new(
                            file,
                            position_for_offset(source, k),
                            Some(position_for_offset(source, k + q.len())),
                        )
                    },
                    None => document_start_span(file),
                }
            },
            None => document_start_span(file),
        }
    }
}

/// The span of the top-level key `key`: from the quote that opens it to the
/// quote that closes it, else the document start.
pub fn top_level_key_span(file: &str, source: &[char], key: &str) -> (r: SourceSpan)
    ensures
        r.file@ == file@,
        match key_range(source@, key@) {
            Some((a, b)) => (r.start.line, r.start.column) == line_col(source@, a)
                && (r.end matches Some(e) && (e.line, e.column) == line_col(source@, b)),
            None => r.start.line == 1 && r.start.column == 1 && r.end is None,
        },
{
    match top_level_key_start(source, key) {
        Some((a, b)) => SourceSpan::new(file, position_for_offset(source, a), Some(position_for_offset(source, b))),
        None => document_start_span(file),
    }
}

/// Scan for the top-level key `key` followed by `:`, returning the range of
/// the quoted key (quotes included).
pub open spec fn key_scan(
    s: Seq<char>,
    key: Seq<char>,
    i: int,
    depth: u32,
    in_string: bool,
    escaped: bool,
    start: int,
) -> Option<(int, int)>
    decreases s.len() - i,
{
    if i < 0 || i >= s.len() {
        None
    } else {
        let c = s[i];
        if in_string {
            if escaped {
                key_scan(s, key, i + 1, depth, true, false, start)
            } else if c == '\\' {
                key_scan(s, key, i + 1, depth, true, true, start)
            } else if c == '"' {
                if depth == 1 && 0 <= start < i && s.subrange(start + 1, i) == key && next_non_ws(s, i + 1)
                    == Some(':') {
                    Some((start, i + 1))
                } else {
                    key_scan(s, key, i + 1, depth, false, false, start)
                }
            } else {
                key_scan(s, key, i + 1, depth, true, false, start)
            }
        } else if c == '"' {
            key_scan(s, key, i + 1, depth, true, escaped, i)
        } else if c == '{' || c == '[' {
            key_scan(s, key, i + 1, sat_inc(depth), false, escaped, start)
        } else if c == '}' || c == ']' {
            key_scan(s, key, i + 1, sat_dec(depth), false, escaped, start)
        } else {
            key_scan(s, key, i + 1, depth, false, escaped, start)
        }
    }
}

/// The range of the quoted top-level key `key` (quotes included): the first
/// string at nesting depth one whose content is `key` and that a `:` follows.
pub open spec fn key_range(s: Seq<char>, key: Seq<char>) -> Option<(int, int)> {
    key_scan(s, key, 0, 0, false, false, 0)
}

proof fn lemma_key_scan_bounds(
    s: Seq<char>,
    key: Seq<char>,
    i: int,
    depth: u32,
    in_string: bool,
    escaped: bool,
    start: int,
)
    requires
        0 <= start,
        in_string ==> start < i,
    ensures
        key_scan(s, key, i, depth, in_string, escaped, start) matches Some((a, b)) ==> 0 <= a < b
            <= s.len(),
    decreases s.len() - i,
{
    if 0 <= i < s.len() {
        let c = s[i];
        if in_string {
            if escaped {
                lemma_key_scan_bounds(s, key, i + 1, depth, true, false, start);
            } else if c == '\\' {
                lemma_key_scan_bounds(s, key, i + 1, depth, true, true, start);
            } else if c == '"' {
                lemma_key_scan_bounds(s, key, i + 1, depth, false, false, start);
            } else {
                lemma_key_scan_bounds(s, key, i + 1, depth, true, false, start);
            }
        } else if c == '"' {
            lemma_key_scan_bounds(s, key, i + 1, depth, true, escaped, i);
        } else if c == '{' || c == '[' {
            lemma_key_scan_bounds(s, key, i + 1, sat_inc(depth), false, escaped, start);
        } else if c == '}' || c == ']' {
            lemma_key_scan_bounds(s, key, i + 1, sat_dec(depth), false, escaped, start);
        } else {
            lemma_key_scan_bounds(s, key, i + 1, depth, false, escaped, start);
        }
    }
}

/// The range of the quoted top-level key `key` (quotes included).
fn top_level_key_start(source: &[char], key: &str) -> (r: Option<(usize, usize)>)
    ensures
        match r {
            Some((a, b)) => key_range(source@, key@) == Some((a as int, b as int)) && a < b <= source@.len(),
            None => key_range(source@, key@) is None,
        },
{
    let sec = crate::text::str_chars(key);
    let mut depth: u32 = 0;
    let mut in_string = false;
    let mut escaped = false;
    let mut string_start: usize = 0;
    let mut i: usize = 0;
    proof {
        lemma_key_scan_bounds(source@, key@, 0, 0, false, false, 0);
    }
    while i < source.len()
        invariant
            i <= source@.len(),
            sec@ == key@,
            string_start <= i,
            in_string ==> string_start < i,
            key_range(source@, key@) == key_scan(source@, key@, i as int, depth, in_string, escaped,
                string_start as int),
        decreases source@.len() - i,
    {
        let c = source[i];
        if in_string {
            if escaped {
                escaped = false;
            } else if c == '\\' {
                escaped = true;
            } else if c == '"' {
                in_string = false;
                if depth == 1 && string_start < i {
                    let content = slice(source, string_start + 1, i);
                    if crate::text::chars_eq(&content, &sec) {
                        match next_non_whitespace(source, i + 1) {
                            Some(k) => {
                                if source[k] == ':' {
                                    return Some((string_start, i + 1));
                                }
                            },
                            None => {},
                        }
                    }
                }
            }
        } else if c == '"' {
            in_string = true;
            string_start = i;
        } else if c == '{' || c == '[' {
            depth = if depth == u32::MAX { depth } else { depth + 1 };
        } else if c == '}' || c == ']' {
            depth = if depth == 0 { depth } else { depth - 1 };
        }
        i = i + 1;
    }
    None
}

/// End of the token that starts at `i`: the first `,`, `}`, `]` or white
/// space at or after `i`, else the end of the text.
pub open spec fn token_end(s: Seq<char>, i: int) -> int
    decreases s.len() - i,
{
    if i < 0 || i >= s.len() {
        i
    } else if s[i] == ',' || s[i] == '}' || s[i] == ']' || is_white_space(s[i]) {
        i
    } else {
        token_end(s, i + 1)
    }
}

/// The range of the number token that is the value of the top-level key
/// `key`: from the first non-white-space character after its `:` up to the
/// token's end, when that is not empty.
pub open spec fn number_token_range(s: Seq<char>, key: Seq<char>) -> Option<(int, int)> {
    match key_range(s, key) {
        Some((_, key_end)) => match value_start_after(s, key_end) {
            Some(a) => if token_end(s, a) > a { Some((a, token_end(s, a))) } else { None },
            None => None,
        },
        None => None,
    }
}

/// Where the number token that is the value of the top-level key `key`
/// lies, as a range of character positions.
pub fn top_level_number_token(source: &[char], key: &str) -> (r: Option<(usize, usize)>)
    ensures
        match r {
            Some((a, b)) => number_token_range(source@, key@) == Some((a as int, b as int)) && a < b <= source@.len(),
            None => number_token_range(source@, key@) is None,
        },
{
    let (_, key_end) = match top_level_key_start(source, key) {
        Some(p) => p,
        None => return None,
    };
    let start = match section_value_start(source, key_end) {
        Some(v) => v,
        None => return None,
    };
    let mut end = start;
    while end < source.len() && source[end] != ',' && source[end] != '}' && source[end] != ']'
        && !crate::text::white_space(source[end])
        invariant
            start <= end <= source@.len(),
            token_end(source@, start as int) == token_end(source@, end as int),
        decreases source@.len() - end,
    {
        end = end + 1;
    }
    if end == start {
        return None;
    }
    Some((start, end))
}

} // verus!
