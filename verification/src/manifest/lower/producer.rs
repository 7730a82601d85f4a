//! Lowering of producer metadata, provenance origins and producer fingerprints.
use vstd::prelude::*;
use crate::collections::{StrMap, StrSet};
use crate::diagnostics::{
    lemma_reported_none, lemma_reported_push, lemma_reported_trans, problem_of, reported, reports,
    schema_diagnostic, text_arg, ArgumentView, Diagnostic, Problem, SourceSpan,
};
use crate::manifest::raw::{RawContentFingerprint, RawOriginMap, RawProducerFingerprint, RawProducerIdentity, RawProducerOrigin, RawValue};
use crate::manifest::spans::ManifestSpans;
use crate::manifest::validate::{empty_value_view, validate_non_empty_string};
use crate::model::producer::{ProducerFingerprint, ProducerMetadataValue, ProducerOrigin};
use crate::model::producer_validation::{is_namespaced_extension_key, is_namespaced_key};
use crate::order::{lemma_text_lt_irreflexive, lemma_text_lt_total, lemma_text_lt_transitive, text_lt};

verus! {

/// `m` holds the raw JSON value `r` member for member: numbers by lexeme,
/// array items and object members in order.
pub open spec fn metadata_value_of(m: ProducerMetadataValue, r: RawValue) -> bool
    decreases r, 0int,
{
    match r {
        RawValue::Null => m is Null,
        RawValue::Bool(b) => m == ProducerMetadataValue::Bool(b),
        RawValue::Number(n) => m matches ProducerMetadataValue::Number(t) && t@ == n.lexeme@,
        RawValue::String(s) => m matches ProducerMetadataValue::String(t) && t@ == s@,
        RawValue::Array(ys) => m matches ProducerMetadataValue::Array(xs) && xs@.len() == ys@.len()
            && metadata_items_of(xs@, ys@, ys@.len() as int),
        RawValue::Object(ys) => m matches ProducerMetadataValue::Object(xs) && xs@.len() == ys@.len()
            && metadata_members_of(xs@, ys@, ys@.len() as int),
    }
}

/// The first `n` items of `xs` hold the first `n` raw values of `ys`.
pub open spec fn metadata_items_of(xs: Seq<ProducerMetadataValue>, ys: Seq<RawValue>, n: int) -> bool
    decreases ys, n,
{
    if n <= 0 || n > ys.len() {
        n <= 0
    } else {
        metadata_items_of(xs, ys, n - 1) && metadata_value_of(xs[n - 1], ys[n - 1])
    }
}

/// The first `n` members of `xs` hold the first `n` raw members of `ys`.
pub open spec fn metadata_members_of(
    xs: Seq<(String, ProducerMetadataValue)>,
    ys: Seq<(String, RawValue)>,
    n: int,
) -> bool
    decreases ys, n,
{
    if n <= 0 || n > ys.len() {
        n <= 0
    } else {
        metadata_members_of(xs, ys, n - 1) && xs[n - 1].0@ == ys[n - 1].0@ && metadata_value_of(
            xs[n - 1].1,
            ys[n - 1].1,
        )
    }
}

/// A producer metadata value from a raw JSON value, member for member.
pub fn metadata_value_from_raw(value: &RawValue) -> (r: ProducerMetadataValue)
    ensures
        metadata_value_of(r, *value),
    decreases value,
{
    match value {
        RawValue::Null => ProducerMetadataValue::Null,
        RawValue::Bool(b) => ProducerMetadataValue::Bool(*b),
        RawValue::Number(n) => ProducerMetadataValue::Number(crate::text::copy_string(&n.lexeme)),
        RawValue::String(s) => ProducerMetadataValue::String(crate::text::copy_string(s)),
        RawValue::Array(items) => {
            let mut out: Vec<ProducerMetadataValue> = Vec::new();
            let mut i: usize = 0;
            while i < items.len()
                invariant
                    i <= items@.len(),
                    *value == RawValue::Array(*items),
                    out@.len() == i,
                    metadata_items_of(out@, items@, i as int),
                decreases items@.len() - i,
            {
                proof {
                    assert(decreases_to!(*value => (*value)->Array_0));
                    assert(decreases_to!(*items => items@));
                    assert(decreases_to!(items@ => items@[i as int]));
                    assert(decreases_to!(*value => items@[i as int]));
                }
                let ghost before = out@;
                let item = metadata_value_from_raw(&items[i]);
                out.push(item);
                proof {
                    lemma_items_prefix(before, out@, items@, i as int);
                }
                i = i + 1;
            }
            ProducerMetadataValue::Array(out)
        },
        RawValue::Object(members) => {
            let mut out: Vec<(String, ProducerMetadataValue)> = Vec::new();
            let mut i: usize = 0;
            while i < members.len()
                invariant
                    i <= members@.len(),
                    *value == RawValue::Object(*members),
                    out@.len() == i,
                    metadata_members_of(out@, members@, i as int),
                decreases members@.len() - i,
            {
                proof {
                    assert(decreases_to!(*value => (*value)->Object_0));
                    assert(decreases_to!(*members => members@));
                    assert(decreases_to!(members@ => members@[i as int]));
                    assert(decreases_to!(members@[i as int] => members@[i as int].1));
                    assert(decreases_to!(*value => members@[i as int].1));
                }
                let m = &members[i];
                let ghost before = out@;
                let key = crate::text::copy_string(&m.0);
                let item = metadata_value_from_raw(&m.1);
                out.push((key, item));
                proof {
                    lemma_members_prefix(before, out@, members@, i as int);
                }
                i = i + 1;
            }
            ProducerMetadataValue::Object(out)
        },
    }
}

proof fn lemma_items_prefix(a: Seq<ProducerMetadataValue>, b: Seq<ProducerMetadataValue>, ys: Seq<RawValue>, n: int)
    requires
        0 <= n <= a.len(),
        n <= b.len(),
        forall|j: int| 0 <= j < n ==> a[j] == b[j],
        metadata_items_of(a, ys, n),
    ensures
        metadata_items_of(b, ys, n),
    decreases n,
{
    if n > 0 {
        lemma_items_prefix(a, b, ys, n - 1);
    }
}

proof fn lemma_members_prefix(
    a: Seq<(String, ProducerMetadataValue)>,
    b: Seq<(String, ProducerMetadataValue)>,
    ys: Seq<(String, RawValue)>,
    n: int,
)
    requires
        0 <= n <= a.len(),
        n <= b.len(),
        forall|j: int| 0 <= j < n ==> a[j] == b[j],
        metadata_members_of(a, ys, n),
    ensures
        metadata_members_of(b, ys, n),
    decreases n,
{
    if n > 0 {
        lemma_members_prefix(a, b, ys, n - 1);
    }
}

/// The problem of a non-namespaced origin extension key.
pub open spec fn extension_problem(owner: Seq<char>, key: Seq<char>) -> Problem {
    Problem {
        code: "RECITE_SCHEMA001"@,
        presentation_id: "diagnostic-schema-001-origin-extension"@,
        message: owner + " origin extension '"@ + key + "' must be namespaced"@,
        arguments: seq![("owner"@, ArgumentView::Text(owner)), ("key"@, ArgumentView::Text(key))],
    }
}

/// The problems of an origin's extension keys, in order.
pub open spec fn extension_problems(owner: Seq<char>, ext: Seq<(String, RawValue)>, n: int) -> Seq<Problem>
    decreases n,
{
    if n <= 0 {
        Seq::empty()
    } else {
        extension_problems(owner, ext, n - 1) + if is_namespaced_key(ext[n - 1].0@) {
            Seq::empty()
        } else {
            seq![extension_problem(owner, ext[n - 1].0@)]
        }
    }
}

/// The problems reported for an origin: empty kind, id or label, then
/// extension keys that are not namespaced.
pub open spec fn origin_problems(owner: Seq<char>, o: RawProducerOrigin) -> Seq<Problem> {
    (if o.kind@.len() == 0 {
        seq![problem_of(empty_value_view(owner + " origin kind"@, arbitrary()))]
    } else {
        Seq::empty()
    }) + (if o.id@.len() == 0 {
        seq![problem_of(empty_value_view(owner + " origin id"@, arbitrary()))]
    } else {
        Seq::empty()
    }) + (match o.label {
        Some(l) => if l@.len() == 0 {
            seq![problem_of(empty_value_view(owner + " origin label"@, arbitrary()))]
        } else {
            Seq::empty()
        },
        None => Seq::empty(),
    }) + extension_problems(owner, o.extensions@, o.extensions@.len() as int)
}

/// An origin is kept when its kind, id and (present) label are non-empty.
pub open spec fn origin_kept(o: RawProducerOrigin) -> bool {
    o.kind@.len() > 0 && o.id@.len() > 0 && match o.label {
        Some(l) => l@.len() > 0,
        None => true,
    }
}

/// `m` holds the first `n` raw extension members: their keys, each with the
/// value of its last occurrence among them.
pub open spec fn extensions_lowered(m: StrMap<ProducerMetadataValue>, ext: Seq<(String, RawValue)>, n: int) -> bool {
    &&& forall|k: Seq<char>| #[trigger] m.has(k) <==> exists|j: int| 0 <= j < n && ext[j].0@ == k
    &&& forall|j: int| 0 <= j < n && (forall|l: int| j < l < n ==> ext[l].0@ != ext[j].0@) ==> (
        #[trigger] m.spec_get(ext[j].0@) matches Some(v) && metadata_value_of(v, ext[j].1))
}

/// Lower an optional origin: kept when kind, id and label are non-empty;
/// extension keys that are not namespaced are reported.
pub fn lower_origin(
    file: &str,
    source: &[char],
    spans: &mut ManifestSpans,
    diagnostics: &mut Vec<Diagnostic>,
    raw: Option<RawProducerOrigin>,
    owner: &str,
) -> (r: Option<ProducerOrigin>)
    ensures
        match raw {
            None => r is None && final(diagnostics)@ == old(diagnostics)@,
            Some(o) => reported(old(diagnostics)@, final(diagnostics)@, origin_problems(owner@, o))
                && (r is Some <==> origin_kept(o))
                && (r matches Some(x) ==> x.kind@ == o.kind@ && x.id@ == o.id@
                    && crate::model::canonical::opt_text(x.label) == crate::model::canonical::opt_text(o.label)
                    && extensions_lowered(x.extensions, o.extensions@, o.extensions@.len() as int)),
        },
{
    let raw = match raw {
        Some(o) => o,
        None => return None,
    };
    let ghost o = raw;
    let ghost start = diagnostics@;
    let kind_field = crate::text::concat2(owner, " origin kind");
    let kind_span = spans.next_string_span(file, source, raw.kind.as_str());
    let kind_valid = validate_non_empty_string(diagnostics, kind_field.as_str(), raw.kind.as_str(), kind_span);
    let ghost m1 = diagnostics@;
    let ghost p1 = if kind_valid { Seq::<Problem>::empty() } else { seq![problem_of(empty_value_view(owner@ + " origin kind"@, arbitrary()))] };
    proof {
        if kind_valid {
            lemma_reported_none(start);
        } else {
            lemma_reported_none(start);
            lemma_reported_push(start, start, Seq::empty(), diagnostics@.last(), p1[0]);
            assert(diagnostics@ =~= start.push(diagnostics@.last()));
            assert(Seq::<Problem>::empty().push(p1[0]) =~= p1);
        }
    }
    let id_field = crate::text::concat2(owner, " origin id");
    let id_span = spans.next_string_span(file, source, raw.id.as_str());
    let id_valid = validate_non_empty_string(diagnostics, id_field.as_str(), raw.id.as_str(), id_span);
    let ghost m2 = diagnostics@;
    let ghost p2 = if id_valid { Seq::<Problem>::empty() } else { seq![problem_of(empty_value_view(owner@ + " origin id"@, arbitrary()))] };
    proof {
        lemma_reported_none(m1);
        if !id_valid {
            lemma_reported_push(m1, m1, Seq::empty(), diagnostics@.last(), p2[0]);
            assert(diagnostics@ =~= m1.push(diagnostics@.last()));
            assert(Seq::<Problem>::empty().push(p2[0]) =~= p2);
        }
    }
    let label_valid = match &raw.label {
        Some(l) => {
            let label_field = crate::text::concat2(owner, " origin label");
            let label_span = spans.next_string_span(file, source, l.as_str());
            validate_non_empty_string(diagnostics, label_field.as_str(), l.as_str(), label_span)
        },
        None => true,
    };
    let ghost m3 = diagnostics@;
    let ghost p3 = match o.label {
        Some(l) => if l@.len() == 0 {
            seq![problem_of(empty_value_view(owner@ + " origin label"@, arbitrary()))]
        } else {
            Seq::<Problem>::empty()
        },
        None => Seq::<Problem>::empty(),
    };
    proof {
        lemma_reported_none(m2);
        if p3.len() > 0 {
            lemma_reported_push(m2, m2, Seq::empty(), diagnostics@.last(), p3[0]);
            assert(diagnostics@ =~= m2.push(diagnostics@.last()));
            assert(Seq::<Problem>::empty().push(p3[0]) =~= p3);
        }
    }
    let mut k: usize = 0;
    proof {
        lemma_reported_none(m3);
    }
    while k < raw.extensions.len()
        invariant
            o == raw,
            k <= raw.extensions@.len(),
            reported(m3, diagnostics@, extension_problems(owner@, raw.extensions@, k as int)),
        decreases raw.extensions@.len() - k,
    {
        let key = &raw.extensions[k].0;
        let ghost mid = diagnostics@;
        if !is_namespaced_extension_key(key.as_str()) {
            let ext_span = spans.next_string_span(file, source, key.as_str());
            let mut message = crate::text::concat2(owner, " origin extension '");
            crate::text::push_text(&mut message, key.as_str());
            crate::text::push_text(&mut message, "' must be namespaced");
            let args = vec![text_arg("owner", owner), text_arg("key", key.as_str())];
            let d = schema_diagnostic(crate::diagnostics::malformed_shape(), "diagnostic-schema-001-origin-extension", message, ext_span, args);
            proof {
                assert(crate::diagnostics::arguments_view(args@) =~= seq![
                    ("owner"@, ArgumentView::Text(owner@)),
                    ("key"@, ArgumentView::Text(key@)),
                ]);
                lemma_reported_push(m3, mid, extension_problems(owner@, raw.extensions@, k as int), d, extension_problem(owner@, key@));
            }
            diagnostics.push(d);
        } else {
            proof {
                assert(extension_problems(owner@, raw.extensions@, k + 1) =~= extension_problems(owner@, raw.extensions@, k as int));
            }
        }
        k = k + 1;
    }
    proof {
        lemma_reported_trans(start, m1, m2, p1, p2);
        lemma_reported_trans(start, m2, m3, p1 + p2, p3);
        lemma_reported_trans(start, m3, diagnostics@, p1 + p2 + p3, extension_problems(owner@, raw.extensions@, raw.extensions@.len() as int));
        assert(p1 + p2 + p3 + extension_problems(owner@, raw.extensions@, raw.extensions@.len() as int) =~= origin_problems(owner@, o));
    }
    if !(kind_valid && id_valid && label_valid) {
        return None;
    }
    let mut extensions: StrMap<ProducerMetadataValue> = StrMap::new();
    let mut e: usize = 0;
    proof {
        assert forall|k: Seq<char>| #[trigger] extensions.has(k) implies false by {
            assert(extensions.keys().len() == 0);
        }
    }
    while e < raw.extensions.len()
        invariant
            e <= raw.extensions@.len(),
            extensions_lowered(extensions, raw.extensions@, e as int),
        decreases raw.extensions@.len() - e,
    {
        let m = &raw.extensions[e];
        let key = crate::text::copy_string(&m.0);
        let value = metadata_value_from_raw(&m.1);
        let ghost before = extensions;
        let ghost kv = key@;
        extensions.insert(key, value);
        proof {
            let ext = raw.extensions@;
            assert forall|k: Seq<char>| #[trigger] extensions.has(k) <==> exists|j: int| 0 <= j < e + 1 && ext[j].0@ == k by {
                assert(extensions.keys().to_set().contains(k) == extensions.keys().contains(k));
                assert(before.keys().to_set().contains(k) == before.keys().contains(k));
                if k == kv {
                    assert(ext[e as int].0@ == k);
                } else if extensions.has(k) {
                    assert(before.has(k));
                    let j = choose|j: int| 0 <= j < e && ext[j].0@ == k;
                    assert(0 <= j < e + 1 && ext[j].0@ == k);
                }
                if exists|j: int| 0 <= j < e + 1 && ext[j].0@ == k {
                    let j = choose|j: int| 0 <= j < e + 1 && ext[j].0@ == k;
                    if j < e {
                        assert(before.has(k));
                    }
                }
            }
            assert forall|j: int| 0 <= j < e + 1 && (forall|l: int| j < l < e + 1 ==> ext[l].0@ != ext[j].0@) implies (
                #[trigger] extensions.spec_get(ext[j].0@) matches Some(v) && metadata_value_of(v, ext[j].1)) by {
                if j < e {
                    assert(ext[e as int].0@ != ext[j].0@);
                    assert(forall|l: int| j < l < e ==> ext[l].0@ != ext[j].0@);
                    assert(before.spec_get(ext[j].0@) matches Some(v) && metadata_value_of(v, ext[j].1));
                }
            }
        }
        e = e + 1;
    }
    Some(ProducerOrigin { kind: raw.kind, id: raw.id, label: raw.label, extensions })
}


/// The problems reported for one entry of an origin map.
pub open spec fn origin_entry_problems(owner: Seq<char>, e: (String, RawProducerOrigin)) -> Seq<Problem> {
    if e.0@.len() == 0 {
        seq![problem_of(empty_value_view(owner + " provenance key"@, arbitrary()))]
    } else {
        origin_problems(owner + " '"@ + e.0@ + "'"@, e.1)
    }
}

/// The problems reported for the first `n` entries of an origin map.
pub open spec fn origin_map_problems(owner: Seq<char>, es: Seq<(String, RawProducerOrigin)>, n: int) -> Seq<Problem>
    decreases n,
{
    if n <= 0 {
        Seq::empty()
    } else {
        origin_map_problems(owner, es, n - 1) + origin_entry_problems(owner, es[n - 1])
    }
}

/// `v` is the lowering of the raw origin `o`: same kind, id and label, and
/// its extension members.
pub open spec fn origin_of(v: ProducerOrigin, o: RawProducerOrigin) -> bool {
    &&& v.kind@ == o.kind@
    &&& v.id@ == o.id@
    &&& crate::model::canonical::opt_text(v.label) == crate::model::canonical::opt_text(o.label)
    &&& extensions_lowered(v.extensions, o.extensions@, o.extensions@.len() as int)
}

/// Entry `j` is the last among the first `n` whose key is its key and whose
/// origin is kept, and its key is not empty.
pub open spec fn last_kept_origin(es: Seq<(String, RawProducerOrigin)>, n: int, j: int) -> bool {
    &&& 0 <= j < n
    &&& es[j].0@.len() > 0
    &&& origin_kept(es[j].1)
    &&& forall|l: int| j < l < n && (#[trigger] es[l]).0@ == es[j].0@ ==> !origin_kept(es[l].1)
}

/// Each key of `m` holds the lowering of the last kept origin with that key
/// among the first `n` entries.
pub open spec fn origin_map_values_ok(m: StrMap<ProducerOrigin>, es: Seq<(String, RawProducerOrigin)>, n: int) -> bool {
    forall|j: int| #[trigger] last_kept_origin(es, n, j) ==> (m.spec_get(es[j].0@) matches Some(v) && origin_of(v, es[j].1))
}

/// The values of `m` are those of the origin map `raw`, where it is one.
pub open spec fn origin_map_values(m: StrMap<ProducerOrigin>, raw: RawOriginMap) -> bool {
    match raw {
        RawOriginMap::Entries(es) => origin_map_values_ok(m, es@, es@.len() as int),
        RawOriginMap::Malformed => true,
    }
}

/// The values of `m` are those of the optional origin map `raw`.
pub open spec fn opt_origin_map_values(m: StrMap<ProducerOrigin>, raw: Option<RawOriginMap>) -> bool {
    match raw {
        Some(x) => origin_map_values(m, x),
        None => true,
    }
}

/// Some entry among the first `n` with key `k` has a non-empty key and a kept origin.
pub open spec fn origin_key_kept(es: Seq<(String, RawProducerOrigin)>, n: int, k: Seq<char>) -> bool {
    exists|i: int| 0 <= i < n && (#[trigger] es[i]).0@ == k && k.len() > 0 && origin_kept(es[i].1)
}

/// Lower a map of origins: entries with an empty key are reported and
/// dropped, as are entries whose origin is not kept.
pub fn lower_origin_map(
    file: &str,
    source: &[char],
    spans: &mut ManifestSpans,
    diagnostics: &mut Vec<Diagnostic>,
    raw: Vec<(String, RawProducerOrigin)>,
    owner: &str,
) -> (r: StrMap<ProducerOrigin>)
    ensures
        reported(old(diagnostics)@, final(diagnostics)@, origin_map_problems(owner@, raw@, raw@.len() as int)),
        forall|k: Seq<char>| #[trigger] r.has(k) <==> origin_key_kept(raw@, raw@.len() as int, k),
        origin_map_values_ok(r, raw@, raw@.len() as int),
{
    let ghost es = raw@;
    let ghost start = diagnostics@;
    let mut raw = raw;
    let mut out: StrMap<ProducerOrigin> = StrMap::new();
    let total = raw.len();
    let mut i: usize = 0;
    proof {
        lemma_reported_none(start);
        assert(es.subrange(0, es.len() as int) =~= es);
    }
    while raw.len() > 0
        invariant
            total == es.len(),
            i <= es.len(),
            raw@ == es.subrange(i as int, es.len() as int),
            reported(start, diagnostics@, origin_map_problems(owner@, es, i as int)),
            forall|k: Seq<char>| #[trigger] out.has(k) <==> origin_key_kept(es, i as int, k),
            origin_map_values_ok(out, es, i as int),
        decreases raw@.len(),
    {
        let (key, origin) = raw.remove(0);
        let ghost mid = diagnostics@;
        proof {
            assert((key, origin) == es[i as int]);
            assert(raw@ =~= es.subrange(i + 1, es.len() as int));
        }
        let key_field = crate::text::concat2(owner, " provenance key");
        let key_span = spans.next_string_span(file, source, key.as_str());
        if !validate_non_empty_string(diagnostics, key_field.as_str(), key.as_str(), key_span) {
            proof {
                lemma_reported_push(start, mid, origin_map_problems(owner@, es, i as int), diagnostics@.last(), problem_of(empty_value_view(owner@ + " provenance key"@, arbitrary())));
                assert(diagnostics@ =~= mid.push(diagnostics@.last()));
                assert forall|k: Seq<char>| #[trigger] out.has(k) <==> origin_key_kept(es, i + 1, k) by {
                    if origin_key_kept(es, i + 1, k) {
                        let j = choose|j: int| 0 <= j < i + 1 && (#[trigger] es[j]).0@ == k && k.len() > 0 && origin_kept(es[j].1);
                        if j < i {
                            assert(origin_key_kept(es, i as int, k));
                        }
                    }
                    if origin_key_kept(es, i as int, k) {
                        let j = choose|j: int| 0 <= j < i && (#[trigger] es[j]).0@ == k && k.len() > 0 && origin_kept(es[j].1);
                        assert(0 <= j < i + 1);
                    }
                }
                assert forall|j: int| #[trigger] last_kept_origin(es, i + 1, j) implies (out.spec_get(es[j].0@) matches Some(v)
                    && origin_of(v, es[j].1)) by {
                    assert(j != i);
                    assert(last_kept_origin(es, i as int, j));
                }
            }
            i = i + 1;
            continue;
        }
        let mut child = crate::text::concat3(owner, " '", key.as_str());
        crate::text::push_text(&mut child, "'");
        let ghost og = origin;
        let lowered = lower_origin(file, source, spans, diagnostics, Some(origin), child.as_str());
        proof {
            lemma_reported_trans(start, mid, diagnostics@, origin_map_problems(owner@, es, i as int), origin_entry_problems(owner@, es[i as int]));
        }
        let ghost before = out;
        match lowered {
            Some(o) => {
                out.insert(crate::text::copy_string(&key), o);
            },
            None => {},
        }
        proof {
            assert forall|k: Seq<char>| #[trigger] out.has(k) <==> origin_key_kept(es, i + 1, k) by {
                assert(out.keys().to_set().contains(k) == out.has(k));
                assert(before.keys().to_set().contains(k) == before.has(k));
                if origin_key_kept(es, i + 1, k) {
                    let j = choose|j: int| 0 <= j < i + 1 && (#[trigger] es[j]).0@ == k && k.len() > 0 && origin_kept(es[j].1);
                    if j < i {
                        assert(origin_key_kept(es, i as int, k));
                    }
                }
                if origin_key_kept(es, i as int, k) {
                    let j = choose|j: int| 0 <= j < i && (#[trigger] es[j]).0@ == k && k.len() > 0 && origin_kept(es[j].1);
                    assert(0 <= j < i + 1);
                }
                if k == key@ && origin_kept(og) {
                    assert(es[i as int].0@ == k);
                }
            }
            assert forall|j: int| #[trigger] last_kept_origin(es, i + 1, j) implies (out.spec_get(es[j].0@) matches Some(v)
                && origin_of(v, es[j].1)) by {
                if j < i {
                    assert(last_kept_origin(es, i as int, j));
                    if es[j].0@ == key@ {
                        assert(es[i as int].0@ == es[j].0@);
                        assert(!origin_kept(og));
                    }
                }
            }
        }
        i = i + 1;
    }
    out
}

/// The problem of a `value_origins` value that is not an object of origins.
pub open spec fn value_origins_problem(owner: Seq<char>) -> Problem {
    Problem {
        code: "RECITE_SCHEMA001"@,
        presentation_id: "diagnostic-schema-001-value-origins"@,
        message: owner + " value_origins must map values to origins"@,
        arguments: seq![("owner"@, ArgumentView::Text(owner))],
    }
}

/// Lower an optional `value_origins` object.
pub fn lower_origin_value_map(
    file: &str,
    source: &[char],
    spans: &mut ManifestSpans,
    diagnostics: &mut Vec<Diagnostic>,
    raw: Option<RawOriginMap>,
    owner: &str,
    span: &SourceSpan,
) -> (r: StrMap<ProducerOrigin>)
    ensures
        match raw {
            None => final(diagnostics)@ == old(diagnostics)@ && r.entry_seq().len() == 0,
            Some(RawOriginMap::Malformed) => reported(old(diagnostics)@, final(diagnostics)@, seq![value_origins_problem(owner@)])
                && r.entry_seq().len() == 0,
            Some(RawOriginMap::Entries(es)) => reported(old(diagnostics)@, final(diagnostics)@, origin_map_problems(owner@, es@, es@.len() as int))
                && (forall|k: Seq<char>| #[trigger] r.has(k) <==> origin_key_kept(es@, es@.len() as int, k))
                && origin_map_values_ok(r, es@, es@.len() as int),
        },
{
    match raw {
        None => StrMap::new(),
        Some(RawOriginMap::Malformed) => {
            let message = crate::text::concat2(owner, " value_origins must map values to origins");
            let args = vec![text_arg("owner", owner)];
            let d = schema_diagnostic(crate::diagnostics::malformed_shape(), "diagnostic-schema-001-value-origins", message, span.copy(), args);
            proof {
                assert(crate::diagnostics::arguments_view(args@) =~= seq![("owner"@, ArgumentView::Text(owner@))]);
                lemma_reported_none(diagnostics@);
                lemma_reported_push(diagnostics@, diagnostics@, Seq::empty(), d, value_origins_problem(owner@));
                assert(Seq::<Problem>::empty().push(value_origins_problem(owner@)) =~= seq![value_origins_problem(owner@)]);
            }
            diagnostics.push(d);
            StrMap::new()
        },
        Some(RawOriginMap::Entries(es)) => lower_origin_map(file, source, spans, diagnostics, es, owner),
    }
}

/// The problem of a provenance key that is not a declared value.
pub open spec fn unknown_key_problem(owner: Seq<char>, key: Seq<char>) -> Problem {
    Problem {
        code: "RECITE_SCHEMA001"@,
        presentation_id: "diagnostic-schema-001-provenance-unknown-value"@,
        message: owner + " provenance key '"@ + key + "' is not a declared value"@,
        arguments: seq![("owner"@, ArgumentView::Text(owner)), ("key"@, ArgumentView::Text(key))],
    }
}

/// The problems of the first `n` keys that `allowed` lacks.
pub open spec fn unknown_keys_problems(owner: Seq<char>, allowed: Set<Seq<char>>, keys: Seq<Seq<char>>, n: int) -> Seq<Problem>
    decreases n,
{
    if n <= 0 {
        Seq::empty()
    } else {
        unknown_keys_problems(owner, allowed, keys, n - 1) + if allowed.contains(keys[n - 1]) {
            Seq::empty()
        } else {
            seq![unknown_key_problem(owner, keys[n - 1])]
        }
    }
}

/// Report each provenance key that is not a declared value.
pub fn validate_origin_keys<V>(
    file: &str,
    source: &[char],
    spans: &mut ManifestSpans,
    diagnostics: &mut Vec<Diagnostic>,
    owner: &str,
    allowed: &StrSet,
    origins: &StrMap<V>,
)
    ensures
        reported(old(diagnostics)@, final(diagnostics)@, unknown_keys_problems(owner@, allowed.elem_set(), origins.keys(), origins.keys().len() as int)),
{
    let ghost start = diagnostics@;
    let ghost keys = origins.keys();
    let mut i: usize = 0;
    proof {
        lemma_reported_none(start);
    }
    while i < origins.len()
        invariant
            keys == origins.keys(),
            i <= keys.len(),
            reported(start, diagnostics@, unknown_keys_problems(owner@, allowed.elem_set(), keys, i as int)),
        decreases keys.len() - i,
    {
        let key = &origins.entry_at(i).0;
        let ghost mid = diagnostics@;
        proof {
            assert(keys[i as int] == key@);
            assert(allowed.elem_set().contains(key@) == allowed.elems().contains(key@));
        }
        if !allowed.contains(key.as_str()) {
            let span = spans.next_string_span(file, source, key.as_str());
            let mut message = crate::text::concat3(owner, " provenance key '", key.as_str());
            crate::text::push_text(&mut message, "' is not a declared value");
            let args = vec![text_arg("owner", owner), text_arg("key", key.as_str())];
            let d = schema_diagnostic(crate::diagnostics::malformed_shape(), "diagnostic-schema-001-provenance-unknown-value", message, span, args);
            proof {
                assert(crate::diagnostics::arguments_view(args@) =~= seq![
                    ("owner"@, ArgumentView::Text(owner@)),
                    ("key"@, ArgumentView::Text(key@)),
                ]);
                lemma_reported_push(start, mid, unknown_keys_problems(owner@, allowed.elem_set(), keys, i as int), d, unknown_key_problem(owner@, key@));
            }
            diagnostics.push(d);
        } else {
            proof {
                assert(unknown_keys_problems(owner@, allowed.elem_set(), keys, i + 1) =~= unknown_keys_problems(owner@, allowed.elem_set(), keys, i as int));
            }
        }
        i = i + 1;
    }
}


// ---------------------------------------------------------------------------
// Producer fingerprints.

/// View of a raw fingerprint: (id, kind, algorithm, value).
pub open spec fn raw_fp_view(f: RawProducerFingerprint) -> (Seq<char>, Seq<char>, Seq<char>, Seq<char>) {
    (f.id@, f.kind@, f.algorithm@, f.value@)
}

/// All four fields of a raw fingerprint are non-empty.
pub open spec fn fp_fields_valid(f: RawProducerFingerprint) -> bool {
    f.id@.len() > 0 && f.kind@.len() > 0 && f.algorithm@.len() > 0 && f.value@.len() > 0
}

/// An earlier valid fingerprint has the same (kind, id).
pub open spec fn fp_key_seen(fs: Seq<RawProducerFingerprint>, i: int) -> bool {
    exists|j: int| 0 <= j < i && fp_fields_valid(#[trigger] fs[j]) && fs[j].kind@ == fs[i].kind@ && fs[j].id@ == fs[i].id@
}

/// Fingerprint `i` is kept: its fields are valid and its key is new, unless
/// repeated keys are allowed.
pub open spec fn fp_kept(fs: Seq<RawProducerFingerprint>, i: int, allow_duplicates: bool) -> bool {
    fp_fields_valid(fs[i]) && (allow_duplicates || !fp_key_seen(fs, i))
}

/// The problem of a repeated producer fingerprint key.
pub open spec fn repeated_fp_problem(owner: Seq<char>, kind: Seq<char>, id: Seq<char>) -> Problem {
    Problem {
        code: "RECITE_SCHEMA003"@,
        presentation_id: "diagnostic-schema-003-producer-fingerprint"@,
        message: owner + " repeats producer fingerprint '"@ + kind + ":"@ + id + "'"@,
        arguments: seq![
            ("owner"@, ArgumentView::Text(owner)),
            ("kind"@, ArgumentView::Text(kind)),
            ("id"@, ArgumentView::Text(id)),
        ],
    }
}

/// A field problem when `v` is empty.
pub open spec fn empty_field_problems(field: Seq<char>, v: Seq<char>) -> Seq<Problem> {
    if v.len() == 0 {
        seq![problem_of(empty_value_view(field, arbitrary()))]
    } else {
        Seq::empty()
    }
}

/// The problems reported for fingerprint `i`.
pub open spec fn fp_problems(owner: Seq<char>, fs: Seq<RawProducerFingerprint>, i: int, allow_duplicates: bool) -> Seq<Problem> {
    let f = fs[i];
    empty_field_problems(owner + " producer fingerprint id"@, f.id@) + empty_field_problems(
        owner + " producer fingerprint kind"@,
        f.kind@,
    ) + empty_field_problems(owner + " producer fingerprint algorithm"@, f.algorithm@)
        + empty_field_problems(owner + " producer fingerprint value"@, f.value@) + if fp_fields_valid(f)
        && !allow_duplicates && fp_key_seen(fs, i) {
        seq![repeated_fp_problem(owner, f.kind@, f.id@)]
    } else {
        Seq::empty()
    }
}

/// The problems reported for the first `n` fingerprints.
pub open spec fn fps_problems(owner: Seq<char>, fs: Seq<RawProducerFingerprint>, n: int, allow_duplicates: bool) -> Seq<Problem>
    decreases n,
{
    if n <= 0 {
        Seq::empty()
    } else {
        fps_problems(owner, fs, n - 1, allow_duplicates) + fp_problems(owner, fs, n - 1, allow_duplicates)
    }
}

/// The number of kept fingerprints among the first `n`.
pub open spec fn kept_count(fs: Seq<RawProducerFingerprint>, n: int, allow_duplicates: bool) -> nat
    decreases n,
{
    if n <= 0 {
        0
    } else {
        kept_count(fs, n - 1, allow_duplicates) + if fp_kept(fs, n - 1, allow_duplicates) { 1nat } else { 0nat }
    }
}

/// The views of the fingerprints kept among the first `n`, in input order.
pub open spec fn kept_views(fs: Seq<RawProducerFingerprint>, n: int, allow_duplicates: bool) -> Seq<
    (Seq<char>, Seq<char>, Seq<char>, Seq<char>),
>
    decreases n,
{
    if n <= 0 {
        Seq::empty()
    } else if fp_kept(fs, n - 1, allow_duplicates) {
        kept_views(fs, n - 1, allow_duplicates).push(raw_fp_view(fs[n - 1]))
    } else {
        kept_views(fs, n - 1, allow_duplicates)
    }
}

/// Whether a problem is something other than a repeated fingerprint key.
pub open spec fn not_repeated_fp(p: Problem) -> bool {
    p.code != "RECITE_SCHEMA003"@
}

/// `not_repeated_fp` as a filter.
pub open spec fn non_repeated() -> spec_fn(Problem) -> bool {
    |p: Problem| not_repeated_fp(p)
}

proof fn lemma_field_problems_kept(field: Seq<char>, v: Seq<char>)
    ensures
        empty_field_problems(field, v).filter(non_repeated()) == empty_field_problems(field, v),
{
    reveal_strlit("RECITE_SCHEMA001");
    reveal_strlit("RECITE_SCHEMA003");
    reveal(Seq::filter);
    let ps = empty_field_problems(field, v);
    if v.len() != 0 {
        assert(ps =~= Seq::<Problem>::empty());
    } else {
        assert(ps[0].code == "RECITE_SCHEMA001"@);
        assert(ps[0].code[15] != "RECITE_SCHEMA003"@[15]);
        assert(ps.drop_last() =~= Seq::<Problem>::empty());
        assert(ps.drop_last().filter(non_repeated()) =~= Seq::<Problem>::empty());
        assert(non_repeated()(ps.last()));
        assert(ps.filter(non_repeated()) =~= Seq::<Problem>::empty().push(ps.last()));
        assert(ps =~= Seq::<Problem>::empty().push(ps.last()));
    }
}

/// The two ways of lowering producer fingerprints differ only in repeated
/// keys: allowing repeats reports exactly the problems of the strict lowering
/// other than its repeated-key problems, and where no valid fingerprint
/// repeats a key both report and keep the same.
pub proof fn lemma_fingerprint_modes(owner: Seq<char>, fs: Seq<RawProducerFingerprint>, n: int)
    requires
        0 <= n <= fs.len(),
    ensures
        fps_problems(owner, fs, n, false).filter(non_repeated()) == fps_problems(owner, fs, n, true),
        (forall|i: int| 0 <= i < n ==> !(fp_fields_valid(fs[i]) && #[trigger] fp_key_seen(fs, i))) ==> {
            &&& fps_problems(owner, fs, n, false) == fps_problems(owner, fs, n, true)
            &&& kept_views(fs, n, false) == kept_views(fs, n, true)
        },
    decreases n,
{
    let pred = non_repeated();
    reveal_strlit("RECITE_SCHEMA003");
    reveal(Seq::filter);
    if n > 0 {
        lemma_fingerprint_modes(owner, fs, n - 1);
        let f = fs[n - 1];
        let a = fps_problems(owner, fs, n - 1, false);
        let b = fp_problems(owner, fs, n - 1, false);
        Seq::filter_distributes_over_add(a, b, pred);
        let e1 = empty_field_problems(owner + " producer fingerprint id"@, f.id@);
        let e2 = empty_field_problems(owner + " producer fingerprint kind"@, f.kind@);
        let e3 = empty_field_problems(owner + " producer fingerprint algorithm"@, f.algorithm@);
        let e4 = empty_field_problems(owner + " producer fingerprint value"@, f.value@);
        let rep: Seq<Problem> = if fp_fields_valid(f) && fp_key_seen(fs, n - 1) {
            seq![repeated_fp_problem(owner, f.kind@, f.id@)]
        } else {
            Seq::empty()
        };
        assert(b == e1 + e2 + e3 + e4 + rep);
        assert(fp_problems(owner, fs, n - 1, true) == e1 + e2 + e3 + e4 + Seq::<Problem>::empty());
        lemma_field_problems_kept(owner + " producer fingerprint id"@, f.id@);
        lemma_field_problems_kept(owner + " producer fingerprint kind"@, f.kind@);
        lemma_field_problems_kept(owner + " producer fingerprint algorithm"@, f.algorithm@);
        lemma_field_problems_kept(owner + " producer fingerprint value"@, f.value@);
        Seq::filter_distributes_over_add(e1, e2, pred);
        Seq::filter_distributes_over_add(e1 + e2, e3, pred);
        Seq::filter_distributes_over_add(e1 + e2 + e3, e4, pred);
        Seq::filter_distributes_over_add(e1 + e2 + e3 + e4, rep, pred);
        if rep.len() > 0 {
            assert(rep.drop_last() =~= Seq::<Problem>::empty());
            assert(rep.drop_last().filter(pred) =~= Seq::<Problem>::empty());
            assert(rep.last().code == "RECITE_SCHEMA003"@);
            assert(!pred(rep.last()));
            assert(rep.filter(pred) == rep.drop_last().filter(pred));
        } else {
            assert(rep.filter(pred) =~= Seq::<Problem>::empty());
        }
        assert(e1 + e2 + e3 + e4 + Seq::<Problem>::empty() =~= e1 + e2 + e3 + e4);
    }
}

/// Strict order of fingerprints by id, kind, algorithm, then value.
pub open spec fn fp_lt(a: (Seq<char>, Seq<char>, Seq<char>, Seq<char>), b: (Seq<char>, Seq<char>, Seq<char>, Seq<char>)) -> bool {
    text_lt(a.0, b.0) || (a.0 == b.0 && (text_lt(a.1, b.1) || (a.1 == b.1 && (text_lt(a.2, b.2) || (a.2 == b.2
        && text_lt(a.3, b.3))))))
}

/// Views of lowered fingerprints in (id, kind, algorithm, value) order.
pub open spec fn lowered_fp_views(fs: Seq<ProducerFingerprint>) -> Seq<(Seq<char>, Seq<char>, Seq<char>, Seq<char>)> {
    fs.map_values(|f: ProducerFingerprint| (f.id@, f.kind@, f.algorithm@, f.value@))
}

/// No later element is less than an earlier one.
pub open spec fn fps_ordered(s: Seq<(Seq<char>, Seq<char>, Seq<char>, Seq<char>)>) -> bool {
    forall|i: int, j: int| 0 <= i < j < s.len() ==> !fp_lt(#[trigger] s[j], #[trigger] s[i])
}

proof fn lemma_fp_lt_transitive(
    a: (Seq<char>, Seq<char>, Seq<char>, Seq<char>),
    b: (Seq<char>, Seq<char>, Seq<char>, Seq<char>),
    c: (Seq<char>, Seq<char>, Seq<char>, Seq<char>),
)
    requires
        fp_lt(a, b),
        fp_lt(b, c),
    ensures
        fp_lt(a, c),
{
    if text_lt(a.0, b.0) && text_lt(b.0, c.0) {
        lemma_text_lt_transitive(a.0, b.0, c.0);
    } else if a.0 == b.0 && b.0 == c.0 {
        if text_lt(a.1, b.1) && text_lt(b.1, c.1) {
            lemma_text_lt_transitive(a.1, b.1, c.1);
        } else if a.1 == b.1 && b.1 == c.1 {
            if text_lt(a.2, b.2) && text_lt(b.2, c.2) {
                lemma_text_lt_transitive(a.2, b.2, c.2);
            } else if a.2 == b.2 && b.2 == c.2 {
                lemma_text_lt_transitive(a.3, b.3, c.3);
            }
        }
    }
}

proof fn lemma_fp_lt_asymmetric(
    a: (Seq<char>, Seq<char>, Seq<char>, Seq<char>),
    b: (Seq<char>, Seq<char>, Seq<char>, Seq<char>),
)
    requires
        fp_lt(a, b),
    ensures
        !fp_lt(b, a),
{
    if fp_lt(b, a) {
        lemma_fp_lt_transitive(a, b, a);
        lemma_text_lt_irreflexive(a.0);
        lemma_text_lt_irreflexive(a.1);
        lemma_text_lt_irreflexive(a.2);
        lemma_text_lt_irreflexive(a.3);
    }
}

fn fp_less(a: &ProducerFingerprint, b: &ProducerFingerprint) -> (r: bool)
    ensures
        r == fp_lt((a.id@, a.kind@, a.algorithm@, a.value@), (b.id@, b.kind@, b.algorithm@, b.value@)),
{
    match crate::order::compare_text(a.id.as_str(), b.id.as_str()) {
        crate::order::TextOrder::Less => return true,
        crate::order::TextOrder::Greater => {
            proof {
                crate::order::lemma_text_lt_asymmetric(b.id@, a.id@);
            }
            return false;
        },
        crate::order::TextOrder::Equal => {},
    }
    match crate::order::compare_text(a.kind.as_str(), b.kind.as_str()) {
        crate::order::TextOrder::Less => return true,
        crate::order::TextOrder::Greater => {
            proof {
                crate::order::lemma_text_lt_asymmetric(b.kind@, a.kind@);
                lemma_text_lt_irreflexive(a.id@);
            }
            return false;
        },
        crate::order::TextOrder::Equal => {},
    }
    match crate::order::compare_text(a.algorithm.as_str(), b.algorithm.as_str()) {
        crate::order::TextOrder::Less => return true,
        crate::order::TextOrder::Greater => {
            proof {
                crate::order::lemma_text_lt_asymmetric(b.algorithm@, a.algorithm@);
                lemma_text_lt_irreflexive(a.id@);
                lemma_text_lt_irreflexive(a.kind@);
            }
            return false;
        },
        crate::order::TextOrder::Equal => {},
    }
    proof {
        lemma_text_lt_irreflexive(a.id@);
        lemma_text_lt_irreflexive(a.kind@);
        lemma_text_lt_irreflexive(a.algorithm@);
    }
    match crate::order::compare_text(a.value.as_str(), b.value.as_str()) {
        crate::order::TextOrder::Less => true,
        _ => false,
    }
}

/// Insert `f` after every element it is not less than.
fn insert_ordered(out: &mut Vec<ProducerFingerprint>, f: ProducerFingerprint)
    requires
        fps_ordered(lowered_fp_views(old(out)@)),
    ensures
        fps_ordered(lowered_fp_views(final(out)@)),
        final(out)@.len() == old(out)@.len() + 1,
        forall|v| #[trigger] lowered_fp_views(final(out)@).contains(v) <==> (lowered_fp_views(old(out)@).contains(v)
            || v == (f.id@, f.kind@, f.algorithm@, f.value@)),
        lowered_fp_views(final(out)@).to_multiset() == lowered_fp_views(old(out)@).to_multiset().insert(
            (f.id@, f.kind@, f.algorithm@, f.value@)),
{
    let ghost x = (f.id@, f.kind@, f.algorithm@, f.value@);
    let ghost ov = lowered_fp_views(out@);
    let mut pos: usize = 0;
    while pos < out.len() && !fp_less(&f, &out[pos])
        invariant
            ov == lowered_fp_views(out@),
            x == (f.id@, f.kind@, f.algorithm@, f.value@),
            pos <= out@.len(),
            forall|k: int| 0 <= k < pos ==> !fp_lt(x, #[trigger] ov[k]),
        decreases out@.len() - pos,
    {
        proof {
            assert(ov[pos as int] == (out@[pos as int].id@, out@[pos as int].kind@, out@[pos as int].algorithm@, out@[pos as int].value@));
        }
        pos = pos + 1;
    }
    proof {
        if pos < out@.len() {
            assert(ov[pos as int] == (out@[pos as int].id@, out@[pos as int].kind@, out@[pos as int].algorithm@, out@[pos as int].value@));
            assert(fp_lt(x, ov[pos as int]));
        }
    }
    out.insert(pos, f);
    proof {
        let w = lowered_fp_views(out@);
        assert(w =~= ov.insert(pos as int, x));
        vstd::seq_lib::to_multiset_insert(ov, pos as int, x);
        assert forall|a: int, b: int| 0 <= a < b < w.len() implies !fp_lt(#[trigger] w[b], #[trigger] w[a]) by {
            if a < pos && b == pos {
            } else if a == pos && b > pos {
                assert(w[b] == ov[b - 1]);
                if fp_lt(ov[b - 1], x) {
                    if b - 1 > pos {
                        lemma_fp_lt_transitive(ov[b - 1], x, ov[pos as int]);
                    } else {
                        lemma_fp_lt_asymmetric(x, ov[pos as int]);
                    }
                }
            } else if a < pos && b > pos {
                assert(w[a] == ov[a]);
                assert(w[b] == ov[b - 1]);
            } else if b < pos {
                assert(w[a] == ov[a]);
                assert(w[b] == ov[b]);
            } else {
                assert(w[a] == ov[a - 1]);
                assert(w[b] == ov[b - 1]);
            }
        }
        assert forall|v| #[trigger] w.contains(v) <==> (ov.contains(v) || v == x) by {
            if w.contains(v) {
                let k = w.index_of(v);
                if k < pos {
                    assert(ov[k] == v);
                } else if k > pos {
                    assert(ov[k - 1] == v);
                }
            }
            if ov.contains(v) {
                let k = ov.index_of(v);
                if k < pos {
                    assert(w[k] == v);
                } else {
                    assert(w[k + 1] == v);
                }
            }
            if v == x {
                assert(w[pos as int] == x);
            }
        }
    }
}


/// `keys` holds the pair (kind, id).
pub open spec fn pair_listed(keys: Seq<(String, String)>, kind: Seq<char>, id: Seq<char>) -> bool {
    exists|j: int| 0 <= j < keys.len() && (#[trigger] keys[j]).0@ == kind && keys[j].1@ == id
}

/// A valid fingerprint among the first `n` has the key (kind, id).
pub open spec fn valid_key_before(fs: Seq<RawProducerFingerprint>, n: int, kind: Seq<char>, id: Seq<char>) -> bool {
    exists|k: int| 0 <= k < n && fp_fields_valid(#[trigger] fs[k]) && fs[k].kind@ == kind && fs[k].id@ == id
}

/// Whether `keys` holds the pair (kind, id).
fn has_pair(keys: &Vec<(String, String)>, kind: &str, id: &str) -> (r: bool)
    ensures
        r == exists|j: int| 0 <= j < keys@.len() && (#[trigger] keys@[j]).0@ == kind@ && keys@[j].1@ == id@,
{
    let mut j: usize = 0;
    while j < keys.len()
        invariant
            j <= keys@.len(),
            forall|t: int| 0 <= t < j ==> !((#[trigger] keys@[t]).0@ == kind@ && keys@[t].1@ == id@),
        decreases keys@.len() - j,
    {
        if crate::text::str_eq(keys[j].0.as_str(), kind) && crate::text::str_eq(keys[j].1.as_str(), id) {
            return true;
        }
        j = j + 1;
    }
    false
}

/// Lower producer fingerprints: each with four non-empty fields is kept,
/// unless its (kind, id) repeats and repeats are not allowed; the kept ones
/// come out ordered by id, kind, algorithm and value.
pub fn lower_producer_fingerprints(
    file: &str,
    source: &[char],
    spans: &mut ManifestSpans,
    diagnostics: &mut Vec<Diagnostic>,
    raw: Vec<RawProducerFingerprint>,
    owner: &str,
    allow_duplicates: bool,
) -> (r: Vec<ProducerFingerprint>)
    ensures
        reported(old(diagnostics)@, final(diagnostics)@, fps_problems(owner@, raw@, raw@.len() as int, allow_duplicates)),
        fps_ordered(lowered_fp_views(r@)),
        r@.len() == kept_count(raw@, raw@.len() as int, allow_duplicates),
        forall|v| #[trigger] lowered_fp_views(r@).contains(v) <==> exists|i: int|
            0 <= i < raw@.len() && fp_kept(raw@, i, allow_duplicates) && raw_fp_view(#[trigger] raw@[i]) == v,
        lowered_fp_views(r@).to_multiset() == kept_views(raw@, raw@.len() as int, allow_duplicates).to_multiset(),
{
    let ghost fs = raw@;
    let ghost start = diagnostics@;
    let mut seen: Vec<(String, String)> = Vec::new();
    let mut out: Vec<ProducerFingerprint> = Vec::new();
    let mut i: usize = 0;
    proof {
        lemma_reported_none(start);
        assert(lowered_fp_views(out@) =~= Seq::empty());
        assert(kept_views(fs, 0, allow_duplicates) =~= Seq::empty());
    }
    while i < raw.len()
        invariant
            fs == raw@,
            i <= fs.len(),
            reported(start, diagnostics@, fps_problems(owner@, fs, i as int, allow_duplicates)),
            fps_ordered(lowered_fp_views(out@)),
            out@.len() == kept_count(fs, i as int, allow_duplicates),
            lowered_fp_views(out@).to_multiset() == kept_views(fs, i as int, allow_duplicates).to_multiset(),
            forall|v| #[trigger] lowered_fp_views(out@).contains(v) <==> exists|k: int|
                0 <= k < i && fp_kept(fs, k, allow_duplicates) && raw_fp_view(#[trigger] fs[k]) == v,
            forall|kind: Seq<char>, id: Seq<char>| #[trigger] pair_listed(seen@, kind, id)
                <==> valid_key_before(fs, i as int, kind, id),
        decreases fs.len() - i,
    {
        let f = &raw[i];
        let ghost mid = diagnostics@;
        let id_field = crate::text::concat2(owner, " producer fingerprint id");
        let id_span = spans.next_string_span(file, source, f.id.as_str());
        let dup_span = id_span.copy();
        let id_valid = validate_non_empty_string(diagnostics, id_field.as_str(), f.id.as_str(), id_span);
        let ghost m1 = diagnostics@;
        let kind_field = crate::text::concat2(owner, " producer fingerprint kind");
        let kind_span = spans.next_string_span(file, source, f.kind.as_str());
        let kind_valid = validate_non_empty_string(diagnostics, kind_field.as_str(), f.kind.as_str(), kind_span);
        let ghost m2 = diagnostics@;
        let algorithm_field = crate::text::concat2(owner, " producer fingerprint algorithm");
        let algorithm_span = spans.next_string_span(file, source, f.algorithm.as_str());
        let algorithm_valid = validate_non_empty_string(diagnostics, algorithm_field.as_str(), f.algorithm.as_str(), algorithm_span);
        let ghost m3 = diagnostics@;
        let value_field = crate::text::concat2(owner, " producer fingerprint value");
        let value_span = spans.next_string_span(file, source, f.value.as_str());
        let value_valid = validate_non_empty_string(diagnostics, value_field.as_str(), f.value.as_str(), value_span);
        let ghost m4 = diagnostics@;
        proof {
            lemma_field_reported(mid, m1, id_field@, f.id@);
            lemma_field_reported(m1, m2, kind_field@, f.kind@);
            lemma_field_reported(m2, m3, algorithm_field@, f.algorithm@);
            lemma_field_reported(m3, m4, value_field@, f.value@);
            lemma_reported_trans(mid, m1, m2, empty_field_problems(id_field@, f.id@), empty_field_problems(kind_field@, f.kind@));
            lemma_reported_trans(mid, m2, m3, empty_field_problems(id_field@, f.id@) + empty_field_problems(kind_field@, f.kind@), empty_field_problems(algorithm_field@, f.algorithm@));
            lemma_reported_trans(mid, m3, m4, empty_field_problems(id_field@, f.id@) + empty_field_problems(kind_field@, f.kind@) + empty_field_problems(algorithm_field@, f.algorithm@), empty_field_problems(value_field@, f.value@));
            assert(fs[i as int] == *f);
        }
        let ghost four = empty_field_problems(id_field@, f.id@) + empty_field_problems(kind_field@, f.kind@) + empty_field_problems(algorithm_field@, f.algorithm@) + empty_field_problems(value_field@, f.value@);
        if !(id_valid && kind_valid && algorithm_valid && value_valid) {
            proof {
                assert(four + Seq::<Problem>::empty() =~= four);
                assert(fp_problems(owner@, fs, i as int, allow_duplicates) == four + Seq::<Problem>::empty());
                lemma_reported_trans(start, mid, diagnostics@, fps_problems(owner@, fs, i as int, allow_duplicates), four);
                assert(!fp_kept(fs, i as int, allow_duplicates));
                assert forall|v| #[trigger] lowered_fp_views(out@).contains(v) <==> exists|k: int|
                    0 <= k < i + 1 && fp_kept(fs, k, allow_duplicates) && raw_fp_view(#[trigger] fs[k]) == v by {
                    if exists|k: int| 0 <= k < i + 1 && fp_kept(fs, k, allow_duplicates) && raw_fp_view(#[trigger] fs[k]) == v {
                        let k = choose|k: int| 0 <= k < i + 1 && fp_kept(fs, k, allow_duplicates) && raw_fp_view(#[trigger] fs[k]) == v;
                        assert(k < i);
                    }
                    if exists|k: int| 0 <= k < i && fp_kept(fs, k, allow_duplicates) && raw_fp_view(#[trigger] fs[k]) == v {
                        let k = choose|k: int| 0 <= k < i && fp_kept(fs, k, allow_duplicates) && raw_fp_view(#[trigger] fs[k]) == v;
                        assert(0 <= k < i + 1);
                    }
                }
                assert forall|kind: Seq<char>, id: Seq<char>| #[trigger] pair_listed(seen@, kind, id)
                    <==> valid_key_before(fs, i + 1, kind, id) by {
                    assert(pair_listed(seen@, kind, id) <==> valid_key_before(fs, i as int, kind, id));
                    if valid_key_before(fs, i + 1, kind, id) {
                        let k = choose|k: int| 0 <= k < i + 1 && fp_fields_valid(#[trigger] fs[k]) && fs[k].kind@ == kind && fs[k].id@ == id;
                        assert(k < i);
                    }
                    if valid_key_before(fs, i as int, kind, id) {
                        let k = choose|k: int| 0 <= k < i && fp_fields_valid(#[trigger] fs[k]) && fs[k].kind@ == kind && fs[k].id@ == id;
                        assert(0 <= k < i + 1);
                    }
                }
            }
            i = i + 1;
            continue;
        }
        let repeated = has_pair(&seen, f.kind.as_str(), f.id.as_str());
        proof {
            assert(pair_listed(seen@, f.kind@, f.id@) == repeated);
            assert(valid_key_before(fs, i as int, f.kind@, f.id@) == repeated);
            assert(repeated == fp_key_seen(fs, i as int)) by {
                if repeated {
                    let k = choose|k: int| 0 <= k < i && fp_fields_valid(#[trigger] fs[k]) && fs[k].kind@ == f.kind@ && fs[k].id@ == f.id@;
                    assert(fp_fields_valid(fs[k]) && fs[k].kind@ == fs[i as int].kind@ && fs[k].id@ == fs[i as int].id@);
                }
                if fp_key_seen(fs, i as int) {
                    let k = choose|k: int| 0 <= k < i && fp_fields_valid(#[trigger] fs[k]) && fs[k].kind@ == fs[i as int].kind@ && fs[k].id@ == fs[i as int].id@;
                    assert(valid_key_before(fs, i as int, f.kind@, f.id@));
                }
            }
        }
        let ghost seen_before = seen@;
        if !repeated {
            seen.push((crate::text::copy_string(&f.kind), crate::text::copy_string(&f.id)));
        }
        proof {
            assert forall|kind: Seq<char>, id: Seq<char>| #[trigger] pair_listed(seen@, kind, id)
                <==> valid_key_before(fs, i + 1, kind, id) by {
                assert(pair_listed(seen_before, kind, id) <==> valid_key_before(fs, i as int, kind, id));
                if valid_key_before(fs, i + 1, kind, id) {
                    let k = choose|k: int| 0 <= k < i + 1 && fp_fields_valid(#[trigger] fs[k]) && fs[k].kind@ == kind && fs[k].id@ == id;
                    if k < i {
                        assert(valid_key_before(fs, i as int, kind, id));
                        let j = choose|j: int| 0 <= j < seen_before.len() && (#[trigger] seen_before[j]).0@ == kind && seen_before[j].1@ == id;
                        assert(seen@[j] == seen_before[j]);
                    } else if !repeated {
                        assert(seen@[seen_before.len() as int].0@ == kind);
                    } else {
                        assert(kind == f.kind@ && id == f.id@);
                        let j = choose|j: int| 0 <= j < seen_before.len() && (#[trigger] seen_before[j]).0@ == kind && seen_before[j].1@ == id;
                        assert(seen@[j] == seen_before[j]);
                    }
                }
                if pair_listed(seen@, kind, id) {
                    let j = choose|j: int| 0 <= j < seen@.len() && (#[trigger] seen@[j]).0@ == kind && seen@[j].1@ == id;
                    if j < seen_before.len() {
                        assert(seen_before[j] == seen@[j]);
                        assert(pair_listed(seen_before, kind, id));
                        let k = choose|k: int| 0 <= k < i && fp_fields_valid(#[trigger] fs[k]) && fs[k].kind@ == kind && fs[k].id@ == id;
                        assert(0 <= k < i + 1);
                    } else {
                        assert(fp_fields_valid(fs[i as int]) && fs[i as int].kind@ == kind && fs[i as int].id@ == id);
                    }
                }
            }
        }
        if repeated && !allow_duplicates {
            let mut message = crate::text::concat3(owner, " repeats producer fingerprint '", f.kind.as_str());
            crate::text::push_text(&mut message, ":");
            crate::text::push_text(&mut message, f.id.as_str());
            crate::text::push_text(&mut message, "'");
            let args = vec![text_arg("owner", owner), text_arg("kind", f.kind.as_str()), text_arg("id", f.id.as_str())];
            let d = schema_diagnostic(crate::diagnostics::duplicate_definition_code(), "diagnostic-schema-003-producer-fingerprint", message, dup_span, args);
            proof {
                assert(crate::diagnostics::arguments_view(args@) =~= seq![
                    ("owner"@, ArgumentView::Text(owner@)),
                    ("kind"@, ArgumentView::Text(f.kind@)),
                    ("id"@, ArgumentView::Text(f.id@)),
                ]);
                lemma_reported_push(mid, m4, four, d, repeated_fp_problem(owner@, f.kind@, f.id@));
                assert(four.push(repeated_fp_problem(owner@, f.kind@, f.id@)) =~= fp_problems(owner@, fs, i as int, allow_duplicates));
            }
            diagnostics.push(d);
            proof {
                lemma_reported_trans(start, mid, diagnostics@, fps_problems(owner@, fs, i as int, allow_duplicates), fp_problems(owner@, fs, i as int, allow_duplicates));
                assert(!fp_kept(fs, i as int, allow_duplicates));
                assert forall|v| #[trigger] lowered_fp_views(out@).contains(v) <==> exists|k: int|
                    0 <= k < i + 1 && fp_kept(fs, k, allow_duplicates) && raw_fp_view(#[trigger] fs[k]) == v by {
                    if exists|k: int| 0 <= k < i + 1 && fp_kept(fs, k, allow_duplicates) && raw_fp_view(#[trigger] fs[k]) == v {
                        let k = choose|k: int| 0 <= k < i + 1 && fp_kept(fs, k, allow_duplicates) && raw_fp_view(#[trigger] fs[k]) == v;
                        assert(k < i);
                    }
                    if exists|k: int| 0 <= k < i && fp_kept(fs, k, allow_duplicates) && raw_fp_view(#[trigger] fs[k]) == v {
                        let k = choose|k: int| 0 <= k < i && fp_kept(fs, k, allow_duplicates) && raw_fp_view(#[trigger] fs[k]) == v;
                        assert(0 <= k < i + 1);
                    }
                }
            }
            i = i + 1;
            continue;
        }
        proof {
            assert(four + Seq::<Problem>::empty() =~= four);
            assert(fp_problems(owner@, fs, i as int, allow_duplicates) == four + Seq::<Problem>::empty());
            lemma_reported_trans(start, mid, diagnostics@, fps_problems(owner@, fs, i as int, allow_duplicates), four);
            assert(fp_kept(fs, i as int, allow_duplicates));
        }
        let ghost ov = lowered_fp_views(out@);
        insert_ordered(&mut out, ProducerFingerprint {
            id: crate::text::copy_string(&f.id),
            kind: crate::text::copy_string(&f.kind),
            algorithm: crate::text::copy_string(&f.algorithm),
            value: crate::text::copy_string(&f.value),
        });
        proof {
            vstd::seq_lib::to_multiset_build(kept_views(fs, i as int, allow_duplicates), raw_fp_view(fs[i as int]));
            assert forall|v| #[trigger] lowered_fp_views(out@).contains(v) <==> exists|k: int|
                0 <= k < i + 1 && fp_kept(fs, k, allow_duplicates) && raw_fp_view(#[trigger] fs[k]) == v by {
                if exists|k: int| 0 <= k < i + 1 && fp_kept(fs, k, allow_duplicates) && raw_fp_view(#[trigger] fs[k]) == v {
                    let k = choose|k: int| 0 <= k < i + 1 && fp_kept(fs, k, allow_duplicates) && raw_fp_view(#[trigger] fs[k]) == v;
                    if k < i {
                        assert(ov.contains(v));
                    }
                }
                if exists|k: int| 0 <= k < i && fp_kept(fs, k, allow_duplicates) && raw_fp_view(#[trigger] fs[k]) == v {
                    let k = choose|k: int| 0 <= k < i && fp_kept(fs, k, allow_duplicates) && raw_fp_view(#[trigger] fs[k]) == v;
                    assert(0 <= k < i + 1);
                }
                if v == raw_fp_view(fs[i as int]) {
                    assert(fp_kept(fs, i as int, allow_duplicates));
                }
            }
        }
        i = i + 1;
    }
    out
}

proof fn lemma_field_reported(a: Seq<Diagnostic>, b: Seq<Diagnostic>, field: Seq<char>, v: Seq<char>)
    requires
        v.len() > 0 ==> b == a,
        v.len() == 0 ==> b == a.push(b.last()) && crate::diagnostics::diagnostic_is(b.last(), empty_value_view(field, b.last().span@)),
    ensures
        reported(a, b, empty_field_problems(field, v)),
{
    lemma_reported_none(a);
    if v.len() == 0 {
        lemma_reported_push(a, a, Seq::empty(), b.last(), problem_of(empty_value_view(field, arbitrary())));
        assert(Seq::<Problem>::empty().push(problem_of(empty_value_view(field, arbitrary()))) =~= empty_field_problems(field, v));
    }
}


// ---------------------------------------------------------------------------
// Manifest-level producer metadata.

/// The presentation id of a content fingerprint error.
pub open spec fn content_error_id(e: crate::model::fingerprint::ProducerContentFingerprintError) -> Seq<char> {
    match e {
        crate::model::fingerprint::ProducerContentFingerprintError::EmptyAlgorithm => "diagnostic-schema-001-producer-content-fingerprint-empty-algorithm"@,
        crate::model::fingerprint::ProducerContentFingerprintError::Blake3HexShape => "diagnostic-schema-001-producer-content-fingerprint-blake3-hex-shape"@,
        crate::model::fingerprint::ProducerContentFingerprintError::Blake3HexData => "diagnostic-schema-001-producer-content-fingerprint-blake3-hex-data"@,
        crate::model::fingerprint::ProducerContentFingerprintError::EmptyDigest => "diagnostic-schema-001-producer-content-fingerprint-empty-digest"@,
        crate::model::fingerprint::ProducerContentFingerprintError::Blake3DigestLength { .. } => "diagnostic-schema-001-producer-content-fingerprint-blake3-digest-length"@,
    }
}

/// The problem of an invalid manifest content fingerprint.
pub open spec fn content_error_problem(e: crate::model::fingerprint::ProducerContentFingerprintError) -> Problem {
    Problem {
        code: "RECITE_SCHEMA001"@,
        presentation_id: content_error_id(e),
        message: "manifest content_fingerprint is invalid: "@ + crate::model::fingerprint::producer_error_message(e),
        arguments: match e {
            crate::model::fingerprint::ProducerContentFingerprintError::Blake3DigestLength { actual } => seq![("actual"@, ArgumentView::Integer((actual as i64) as int))],
            _ => Seq::empty(),
        },
    }
}

/// The manifest-level producer fields as read.
pub struct ProducerMetadataInput {
    pub producer: Option<RawProducerIdentity>,
    pub content_fingerprint: Option<RawContentFingerprint>,
    pub schema_export_version: Option<u32>,
    pub inclusion_policy: Option<String>,
    pub producer_fingerprints: Vec<RawProducerFingerprint>,
    pub allow_duplicate_fingerprints: bool,
}

/// A producer identity whose kind and id are non-empty but blank: the
/// manifest field checks accept it and the identity refuses it.
pub open spec fn blank_producer(p: Option<RawProducerIdentity>) -> bool {
    match p {
        Some(r) => r.kind@.len() > 0 && r.id@.len() > 0 && (crate::text::all_white_space(r.kind@)
            || crate::text::all_white_space(r.id@)),
        None => false,
    }
}

/// The problems reported for the manifest-level producer fields, in order.
pub open spec fn producer_metadata_problems(input: ProducerMetadataInput) -> Seq<Problem> {
    (if input.schema_export_version == Some(0u32) {
        seq![Problem {
            code: "RECITE_SCHEMA001"@,
            presentation_id: "diagnostic-schema-001-producer-export-version"@,
            message: "schema_export_version must be greater than zero"@,
            arguments: Seq::empty(),
        }]
    } else {
        Seq::empty()
    }) + (match input.producer {
        Some(p) => empty_field_problems("manifest producer kind"@, p.kind@) + empty_field_problems(
            "manifest producer id"@,
            p.id@,
        ),
        None => Seq::empty(),
    }) + (match input.content_fingerprint {
        Some(c) => match crate::model::fingerprint::producer_fingerprint_outcome(c.algorithm@, c.value@) {
            Err(e) => seq![content_error_problem(e)],
            Ok(_) => Seq::empty(),
        },
        None => Seq::empty(),
    }) + (match input.inclusion_policy {
        Some(p) => empty_field_problems("inclusion_policy"@, p@),
        None => Seq::empty(),
    }) + fps_problems("manifest"@, input.producer_fingerprints@, input.producer_fingerprints@.len() as int, input.allow_duplicate_fingerprints)
}

/// The producer identity is kept: present with non-empty kind and id.
pub open spec fn producer_kept(p: Option<RawProducerIdentity>) -> bool {
    p matches Some(r) && r.kind@.len() > 0 && r.id@.len() > 0
}

/// What the manifest-level producer fields lower to: metadata when any field
/// survives validation, keeping what survived.
pub open spec fn producer_metadata_lowered(
    m_opt: Option<crate::model::producer::ProducerMetadata>,
    input: ProducerMetadataInput,
) -> bool {
    &&& (m_opt is None <==> (!producer_kept(input.producer)
            && !(input.content_fingerprint matches Some(c) && crate::model::fingerprint::producer_fingerprint_outcome(c.algorithm@, c.value@) is Ok)
            && input.schema_export_version is None && input.inclusion_policy is None
            && kept_count(input.producer_fingerprints@, input.producer_fingerprints@.len() as int, input.allow_duplicate_fingerprints) == 0))
    &&& (m_opt matches Some(m) ==> (m.producer is Some <==> producer_kept(input.producer))
            && m.schema_export_version == input.schema_export_version
            && crate::model::canonical::opt_text(m.inclusion_policy) == crate::model::canonical::opt_text(input.inclusion_policy)
            && (match (m.content_fingerprint, input.content_fingerprint) {
                (Some(f), Some(c)) => crate::model::fingerprint::producer_fingerprint_outcome(c.algorithm@, c.value@) == Ok::<(Seq<char>, Seq<u8>), crate::model::fingerprint::ProducerContentFingerprintError>(f@),
                (None, Some(c)) => crate::model::fingerprint::producer_fingerprint_outcome(c.algorithm@, c.value@) is Err,
                (None, None) => true,
                (Some(_), None) => false,
            })
            && fps_ordered(lowered_fp_views(m.producer_fingerprints@))
            && m.producer_fingerprints@.len() == kept_count(input.producer_fingerprints@, input.producer_fingerprints@.len() as int, input.allow_duplicate_fingerprints)
            && lowered_fp_views(m.producer_fingerprints@).to_multiset() == kept_views(input.producer_fingerprints@,
                input.producer_fingerprints@.len() as int, input.allow_duplicate_fingerprints).to_multiset()
            && (m.producer matches Some(p) ==> input.producer matches Some(q) && p.kind_view() == q.kind@
                && p.id_view() == q.id@)
            && forall|v| #[trigger] lowered_fp_views(m.producer_fingerprints@).contains(v) <==> exists|i: int|
                0 <= i < input.producer_fingerprints@.len() && fp_kept(input.producer_fingerprints@, i, input.allow_duplicate_fingerprints)
                && raw_fp_view(#[trigger] input.producer_fingerprints@[i]) == v)
}

/// Lower the manifest-level producer fields: metadata is present when any
/// field survives validation.
pub fn lower_producer_metadata(
    file: &str,
    source: &[char],
    spans: &mut ManifestSpans,
    diagnostics: &mut Vec<Diagnostic>,
    input: ProducerMetadataInput,
) -> (r: Option<crate::model::producer::ProducerMetadata>)
    requires
        !blank_producer(input.producer),
    ensures
        reported(old(diagnostics)@, final(diagnostics)@, producer_metadata_problems(input)),
        producer_metadata_lowered(r, input),
{
    let ghost inp = input;
    let ghost start = diagnostics@;
    let ProducerMetadataInput {
        producer,
        content_fingerprint,
        schema_export_version,
        inclusion_policy,
        producer_fingerprints,
        allow_duplicate_fingerprints,
    } = input;
    proof {
        lemma_reported_none(start);
    }
    let ghost p0 = if schema_export_version == Some(0u32) {
        seq![producer_metadata_problems(inp)[0]]
    } else {
        Seq::<Problem>::empty()
    };
    if schema_export_version == Some(0u32) {
        let d = schema_diagnostic(
            crate::diagnostics::malformed_shape(),
            "diagnostic-schema-001-producer-export-version",
            String::from_str("schema_export_version must be greater than zero"),
            spans.root_key_span(file, source, "schema_export_version"),
            Vec::new(),
        );
        proof {
            assert(crate::diagnostics::arguments_view(Seq::<(String, crate::diagnostics::DiagnosticArgumentValue)>::empty()) =~= Seq::empty());
            lemma_reported_push(start, start, Seq::empty(), d, p0[0]);
            assert(Seq::<Problem>::empty().push(p0[0]) =~= p0);
        }
        diagnostics.push(d);
    }
    let ghost m1 = diagnostics@;
    let identity = match producer {
        Some(raw) => {
            let kind_span = spans.root_object_value_span(file, source, "producer", "kind");
            let kind_valid = validate_non_empty_string(diagnostics, "manifest producer kind", raw.kind.as_str(), kind_span);
            let ghost mk = diagnostics@;
            let id_span = spans.root_object_value_span(file, source, "producer", "id");
            let id_valid = validate_non_empty_string(diagnostics, "manifest producer id", raw.id.as_str(), id_span);
            proof {
                lemma_field_reported(m1, mk, "manifest producer kind"@, raw.kind@);
                lemma_field_reported(mk, diagnostics@, "manifest producer id"@, raw.id@);
                lemma_reported_trans(m1, mk, diagnostics@, empty_field_problems("manifest producer kind"@, raw.kind@), empty_field_problems("manifest producer id"@, raw.id@));
            }
            if kind_valid && id_valid {
                match crate::model::identity::ProducerIdentity::new(raw.kind, raw.id) {
                    Ok(identity) => Some(identity),
                    Err(_) => {
                        proof {
                            assert(!crate::text::all_white_space(inp.producer->0.kind@));
                            assert(!crate::text::all_white_space(inp.producer->0.id@));
                        }
                        None
                    },
                }
            } else {
                None
            }
        },
        None => {
            proof {
                lemma_reported_none(m1);
            }
            None
        },
    };
    let ghost m2 = diagnostics@;
    let ghost pc = match inp.content_fingerprint {
        Some(c) => match crate::model::fingerprint::producer_fingerprint_outcome(c.algorithm@, c.value@) {
            Err(e) => seq![content_error_problem(e)],
            Ok(_) => Seq::<Problem>::empty(),
        },
        None => Seq::<Problem>::empty(),
    };
    proof {
        lemma_reported_none(m2);
    }
    let content = match content_fingerprint {
        Some(raw) => {
            let ghost rv = raw;
            match crate::model::fingerprint::producer_content_fingerprint_detailed(raw.algorithm, raw.value.as_str()) {
                Ok(f) => Some(f),
                Err(error) => {
                    let (id, args) = match error {
                        crate::model::fingerprint::ProducerContentFingerprintError::EmptyAlgorithm => (
                            "diagnostic-schema-001-producer-content-fingerprint-empty-algorithm",
                            Vec::new(),
                        ),
                        crate::model::fingerprint::ProducerContentFingerprintError::Blake3HexShape => (
                            "diagnostic-schema-001-producer-content-fingerprint-blake3-hex-shape",
                            Vec::new(),
                        ),
                        crate::model::fingerprint::ProducerContentFingerprintError::Blake3HexData => (
                            "diagnostic-schema-001-producer-content-fingerprint-blake3-hex-data",
                            Vec::new(),
                        ),
                        crate::model::fingerprint::ProducerContentFingerprintError::EmptyDigest => (
                            "diagnostic-schema-001-producer-content-fingerprint-empty-digest",
                            Vec::new(),
                        ),
                        crate::model::fingerprint::ProducerContentFingerprintError::Blake3DigestLength { actual } => (
                            "diagnostic-schema-001-producer-content-fingerprint-blake3-digest-length",
                            vec![crate::diagnostics::integer_arg("actual", actual as i64)],
                        ),
                    };
                    let msg = error.message();
                    let message = crate::text::concat2("manifest content_fingerprint is invalid: ", msg.as_str());
                    let d = schema_diagnostic(
                        crate::diagnostics::malformed_shape(),
                        id,
                        message,
                        spans.root_key_span(file, source, "content_fingerprint"),
                        args,
                    );
                    proof {
                        assert(crate::diagnostics::arguments_view(args@) =~= content_error_problem(error).arguments);
                        lemma_reported_push(m2, m2, Seq::empty(), d, content_error_problem(error));
                        assert(Seq::<Problem>::empty().push(content_error_problem(error)) =~= pc);
                    }
                    diagnostics.push(d);
                    None
                },
            }
        },
        None => None,
    };
    let ghost m3 = diagnostics@;
    match &inclusion_policy {
        Some(policy) => {
            let span = spans.root_key_span(file, source, "inclusion_policy");
            validate_non_empty_string(diagnostics, "inclusion_policy", policy.as_str(), span);
            proof {
                lemma_field_reported(m3, diagnostics@, "inclusion_policy"@, policy@);
            }
        },
        None => {
            proof {
                lemma_reported_none(m3);
                assert(Seq::<Problem>::empty() =~= Seq::<Problem>::empty());
            }
        },
    }
    let ghost m4 = diagnostics@;
    let fingerprints = lower_producer_fingerprints(file, source, spans, diagnostics, producer_fingerprints, "manifest", allow_duplicate_fingerprints);
    proof {
        let p1 = match inp.producer {
            Some(p) => empty_field_problems("manifest producer kind"@, p.kind@) + empty_field_problems("manifest producer id"@, p.id@),
            None => Seq::<Problem>::empty(),
        };
        let p3 = match inp.inclusion_policy {
            Some(p) => empty_field_problems("inclusion_policy"@, p@),
            None => Seq::<Problem>::empty(),
        };
        lemma_reported_trans(start, m1, m2, p0, p1);
        lemma_reported_trans(start, m2, m3, p0 + p1, pc);
        lemma_reported_trans(start, m3, m4, p0 + p1 + pc, p3);
        lemma_reported_trans(start, m4, diagnostics@, p0 + p1 + pc + p3, fps_problems("manifest"@, inp.producer_fingerprints@, inp.producer_fingerprints@.len() as int, inp.allow_duplicate_fingerprints));
        assert(p0 + p1 + pc + p3 + fps_problems("manifest"@, inp.producer_fingerprints@, inp.producer_fingerprints@.len() as int, inp.allow_duplicate_fingerprints) =~= producer_metadata_problems(inp));
    }
    if identity.is_none() && content.is_none() && schema_export_version.is_none() && inclusion_policy.is_none()
        && fingerprints.len() == 0 {
        return None;
    }
    Some(crate::model::producer::ProducerMetadata {
        producer: identity,
        content_fingerprint: content,
        schema_export_version,
        inclusion_policy,
        producer_fingerprints: fingerprints,
    })
}

} // verus!
