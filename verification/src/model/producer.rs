//! Producer provenance, producer input fingerprints, and their comparison.
use vstd::prelude::*;
use crate::collections::StrMap;
use crate::model::fingerprint::ContentFingerprint;
use crate::model::identity::ProducerIdentity;
use crate::order::{
    compare_text, lemma_text_lt_asymmetric, lemma_text_lt_irreflexive, lemma_text_lt_total,
    lemma_text_lt_transitive, text_lt, TextOrder,
};

verus! {

/// Format-neutral recursive value for producer diagnostic extensions.
#[derive(Debug)]
pub enum ProducerMetadataValue {
    Null,
    Bool(bool),
    Number(String),
    String(String),
    Array(Vec<ProducerMetadataValue>),
    /// Object members in increasing key order.
    Object(Vec<(String, ProducerMetadataValue)>),
}

/// Stable host-side provenance for a generated schema definition or value.
#[derive(Debug)]
pub struct ProducerOrigin {
    pub kind: String,
    pub id: String,
    pub label: Option<String>,
    pub extensions: StrMap<ProducerMetadataValue>,
}

/// Repeatable fingerprint for the producer input set represented by a schema
/// manifest or one of its domains.
#[derive(Clone, Debug, PartialEq, Eq, Hash, PartialOrd, Ord)]
pub struct ProducerFingerprint {
    pub id: String,
    pub kind: String,
    pub algorithm: String,
    pub value: String,
}

/// Character view of a producer fingerprint: (id, kind, algorithm, value).
pub type FingerprintView = (Seq<char>, Seq<char>, Seq<char>, Seq<char>);

/// Identity key of a producer fingerprint: (kind, id).
pub type FingerprintKey = (Seq<char>, Seq<char>);

impl View for ProducerFingerprint {
    type V = FingerprintView;

    open spec fn view(&self) -> FingerprintView {
        (self.id@, self.kind@, self.algorithm@, self.value@)
    }
}

/// Difference between expected and current producer content fingerprints.
#[derive(Clone, Debug, PartialEq, Eq)]
pub struct ProducerFingerprintMismatch {
    pub expected: ProducerFingerprint,
    pub actual: ProducerFingerprint,
}

impl View for ProducerFingerprintMismatch {
    type V = (FingerprintView, FingerprintView);

    open spec fn view(&self) -> (FingerprintView, FingerprintView) {
        (self.expected@, self.actual@)
    }
}

/// Deterministic evidence from comparing producer-owned content snapshots.
#[derive(Clone, Debug, PartialEq, Eq)]
pub enum ProducerFreshness {
    Fresh,
    ContentMissing { expected: ContentFingerprint },
    ContentMismatch { expected: ContentFingerprint, actual: ContentFingerprint },
    ContentUnexpected { actual: ContentFingerprint },
    Invalid { expected_duplicates: Vec<(String, String)>, actual_duplicates: Vec<(String, String)> },
    Missing { expected: Vec<ProducerFingerprint> },
    Mismatch { entries: Vec<ProducerFingerprintMismatch> },
    Unexpected { actual: Vec<ProducerFingerprint> },
    Mixed {
        missing: Vec<ProducerFingerprint>,
        mismatched: Vec<ProducerFingerprintMismatch>,
        unexpected: Vec<ProducerFingerprint>,
    },
}

/// Non-semantic producer metadata retained for diagnostics and stale-output checks.
#[derive(Debug)]
pub struct ProducerMetadata {
    pub producer: Option<ProducerIdentity>,
    pub content_fingerprint: Option<ContentFingerprint>,
    pub schema_export_version: Option<u32>,
    pub inclusion_policy: Option<String>,
    pub producer_fingerprints: Vec<ProducerFingerprint>,
}

/// Provenance and producer fingerprints attached to a flat metadata domain.
#[derive(Debug)]
pub struct FlatMetadataProvenance {
    pub origin: Option<ProducerOrigin>,
    pub value_origins: StrMap<ProducerOrigin>,
    pub producer_fingerprints: Vec<ProducerFingerprint>,
}

/// Provenance and producer fingerprints attached to a contextual metadata
/// domain and its context/value snapshots.
#[derive(Debug)]
pub struct ContextualMetadataProvenance {
    pub origin: Option<ProducerOrigin>,
    pub context_origins: StrMap<ProducerOrigin>,
    pub value_origins: StrMap<StrMap<ProducerOrigin>>,
    pub producer_fingerprints: Vec<ProducerFingerprint>,
}

// ---------------------------------------------------------------------------
// Specification of fingerprint comparison.

/// The (kind, id) key of a fingerprint.
pub open spec fn fp_key(f: FingerprintView) -> FingerprintKey {
    (f.1, f.0)
}

/// Strict order on keys: by kind, then id.
pub open spec fn key_lt(a: FingerprintKey, b: FingerprintKey) -> bool {
    text_lt(a.0, b.0) || (a.0 == b.0 && text_lt(a.1, b.1))
}

/// Strictly increasing keys.
pub open spec fn keys_sorted(s: Seq<FingerprintKey>) -> bool {
    forall|i: int, j: int| 0 <= i < j < s.len() ==> key_lt(#[trigger] s[i], #[trigger] s[j])
}

/// Views of a list of fingerprints.
pub open spec fn fps_view(s: Seq<ProducerFingerprint>) -> Seq<FingerprintView> {
    s.map_values(|f: ProducerFingerprint| f@)
}

/// Keys of a list of fingerprint views.
pub open spec fn fp_keys(s: Seq<FingerprintView>) -> Seq<FingerprintKey> {
    s.map_values(|f: FingerprintView| fp_key(f))
}

/// Keys of the expected side of mismatches.
pub open spec fn mismatch_keys(s: Seq<(FingerprintView, FingerprintView)>) -> Seq<FingerprintKey> {
    s.map_values(|p: (FingerprintView, FingerprintView)| fp_key(p.0))
}

/// Views of a list of mismatches.
pub open spec fn mismatches_view(s: Seq<ProducerFingerprintMismatch>) -> Seq<
    (FingerprintView, FingerprintView),
> {
    s.map_values(|m: ProducerFingerprintMismatch| m@)
}

/// Views of a list of (kind, id) pairs.
pub open spec fn pairs_view(s: Seq<(String, String)>) -> Seq<FingerprintKey> {
    s.map_values(|p: (String, String)| (p.0@, p.1@))
}

/// Some fingerprint in `s` has key `k`.
pub open spec fn has_key(s: Seq<FingerprintView>, k: FingerprintKey) -> bool {
    exists|i: int| 0 <= i < s.len() && fp_key(#[trigger] s[i]) == k
}

/// Key `k` occurs at least twice in `s`.
pub open spec fn is_dup_key(s: Seq<FingerprintView>, k: FingerprintKey) -> bool {
    exists|i: int, j: int|
        0 <= i < j < s.len() && fp_key(#[trigger] s[i]) == k && fp_key(#[trigger] s[j]) == k
}

/// Some key occurs at least twice in `s`.
pub open spec fn has_dup_key(s: Seq<FingerprintView>) -> bool {
    exists|i: int, j: int|
        0 <= i < j < s.len() && fp_key(#[trigger] s[i]) == fp_key(#[trigger] s[j])
}

/// `d` lists, in key order and once each, the keys repeated in `s`.
pub open spec fn dup_keys_ok(s: Seq<FingerprintView>, d: Seq<FingerprintKey>) -> bool {
    &&& keys_sorted(d)
    &&& forall|k: FingerprintKey| #![trigger d.contains(k)] #![trigger is_dup_key(s, k)]
        d.contains(k) <==> is_dup_key(s, k)
}

/// `m` lists, in key order, the fingerprints of `from` whose key `other` lacks.
pub open spec fn absent_ok(
    from: Seq<FingerprintView>,
    other: Seq<FingerprintView>,
    m: Seq<FingerprintView>,
) -> bool {
    &&& keys_sorted(fp_keys(m))
    &&& forall|f: FingerprintView| #![trigger m.contains(f)] #![trigger from.contains(f)]
        m.contains(f) <==> (from.contains(f) && !has_key(other, fp_key(f)))
}

/// `mm` lists, in key order, the pairs of fingerprints with one key and different content.
pub open spec fn mismatch_ok(
    e: Seq<FingerprintView>,
    a: Seq<FingerprintView>,
    mm: Seq<(FingerprintView, FingerprintView)>,
) -> bool {
    &&& keys_sorted(mismatch_keys(mm))
    &&& forall|p: (FingerprintView, FingerprintView)| #![trigger mm.contains(p)]
        mm.contains(p) <==> (e.contains(p.0) && a.contains(p.1) && fp_key(p.0) == fp_key(p.1)
            && p.0 != p.1)
}

/// The missing, mismatched and unexpected lists a comparison result carries.
pub open spec fn freshness_lists(r: ProducerFreshness) -> (
    Seq<FingerprintView>,
    Seq<(FingerprintView, FingerprintView)>,
    Seq<FingerprintView>,
) {
    match r {
        ProducerFreshness::Missing { expected } => (fps_view(expected@), Seq::empty(), Seq::empty()),
        ProducerFreshness::Mismatch { entries } => (
            Seq::empty(),
            mismatches_view(entries@),
            Seq::empty(),
        ),
        ProducerFreshness::Unexpected { actual } => (Seq::empty(), Seq::empty(), fps_view(actual@)),
        ProducerFreshness::Mixed { missing, mismatched, unexpected } => (
            fps_view(missing@),
            mismatches_view(mismatched@),
            fps_view(unexpected@),
        ),
        _ => (Seq::empty(), Seq::empty(), Seq::empty()),
    }
}

/// The variant of a comparison result fits which of its lists are empty.
pub open spec fn freshness_shape_ok(r: ProducerFreshness) -> bool {
    let (m, mm, u) = freshness_lists(r);
    match r {
        ProducerFreshness::Fresh => true,
        ProducerFreshness::Missing { .. } => m.len() > 0,
        ProducerFreshness::Mismatch { .. } => mm.len() > 0,
        ProducerFreshness::Unexpected { .. } => u.len() > 0,
        ProducerFreshness::Mixed { .. } => (m.len() > 0 && mm.len() > 0) || (m.len() > 0 && u.len()
            > 0) || (mm.len() > 0 && u.len() > 0),
        _ => false,
    }
}

/// `r` is the result of comparing expected fingerprints `e` with actual `a`.
pub open spec fn compare_outcome_ok(
    e: Seq<FingerprintView>,
    a: Seq<FingerprintView>,
    r: ProducerFreshness,
) -> bool {
    if has_dup_key(e) || has_dup_key(a) {
        r matches ProducerFreshness::Invalid { expected_duplicates, actual_duplicates } && dup_keys_ok(
            e,
            pairs_view(expected_duplicates@),
        ) && dup_keys_ok(a, pairs_view(actual_duplicates@))
    } else {
        let (m, mm, u) = freshness_lists(r);
        &&& freshness_shape_ok(r)
        &&& absent_ok(e, a, m)
        &&& mismatch_ok(e, a, mm)
        &&& absent_ok(a, e, u)
    }
}

// ---------------------------------------------------------------------------
// Order lemmas on keys.

proof fn lemma_key_lt_irreflexive(k: FingerprintKey)
    ensures
        !key_lt(k, k),
{
    lemma_text_lt_irreflexive(k.0);
    lemma_text_lt_irreflexive(k.1);
}

proof fn lemma_key_lt_transitive(a: FingerprintKey, b: FingerprintKey, c: FingerprintKey)
    requires
        key_lt(a, b),
        key_lt(b, c),
    ensures
        key_lt(a, c),
{
    if text_lt(a.0, b.0) && text_lt(b.0, c.0) {
        lemma_text_lt_transitive(a.0, b.0, c.0);
    } else if text_lt(a.0, b.0) {
    } else if text_lt(b.0, c.0) {
    } else {
        lemma_text_lt_transitive(a.1, b.1, c.1);
    }
}

proof fn lemma_key_lt_total(a: FingerprintKey, b: FingerprintKey)
    ensures
        a == b || key_lt(a, b) || key_lt(b, a),
{
    lemma_text_lt_total(a.0, b.0);
    lemma_text_lt_total(a.1, b.1);
}

/// Two increasing key sequences with the same members are equal.
proof fn lemma_keys_sorted_unique(s: Seq<FingerprintKey>, t: Seq<FingerprintKey>)
    requires
        keys_sorted(s),
        keys_sorted(t),
        forall|k: FingerprintKey| s.contains(k) <==> t.contains(k),
    ensures
        s == t,
    decreases s.len() + t.len(),
{
    if s.len() == 0 {
        if t.len() > 0 {
            assert(t.contains(t[0]));
        }
        assert(s =~= t);
    } else if t.len() == 0 {
        assert(s.contains(s[0]));
    } else {
        // The least elements agree.
        assert(s.contains(s[0]));
        assert(t.contains(t[0]));
        let i = t.index_of(s[0]);
        let j = s.index_of(t[0]);
        if s[0] != t[0] {
            lemma_key_lt_total(s[0], t[0]);
            if key_lt(s[0], t[0]) {
                if j > 0 {
                    lemma_key_lt_transitive(s[0], t[0], s[0]);
                }
                lemma_key_lt_irreflexive(s[0]);
            } else {
                if i > 0 {
                    lemma_key_lt_transitive(t[0], s[0], t[0]);
                }
                lemma_key_lt_irreflexive(t[0]);
            }
        }
        let s1 = s.drop_first();
        let t1 = t.drop_first();
        assert forall|k: FingerprintKey| s1.contains(k) <==> t1.contains(k) by {
            if s1.contains(k) {
                let a = s1.index_of(k);
                assert(s[a + 1] == k);
                assert(key_lt(s[0], k));
                lemma_key_lt_irreflexive(k);
                assert(t.contains(k));
                let b = t.index_of(k);
                if b == 0 {
                    lemma_key_lt_irreflexive(k);
                }
                assert(t1[b - 1] == k);
            }
            if t1.contains(k) {
                let a = t1.index_of(k);
                assert(t[a + 1] == k);
                assert(key_lt(t[0], k));
                assert(s.contains(k));
                let b = s.index_of(k);
                if b == 0 {
                    lemma_key_lt_irreflexive(k);
                }
                assert(s1[b - 1] == k);
            }
        }
        lemma_keys_sorted_unique(s1, t1);
        assert(s =~= seq![s[0]] + s1);
        assert(t =~= seq![t[0]] + t1);
    }
}

/// Keys of a sequence are distinct when no key repeats.
proof fn lemma_no_dup_distinct(s: Seq<FingerprintView>, i: int, j: int)
    requires
        !has_dup_key(s),
        0 <= i < s.len(),
        0 <= j < s.len(),
        fp_key(s[i]) == fp_key(s[j]),
    ensures
        i == j,
{
    if i < j {
        assert(fp_key(s[i]) == fp_key(s[j]));
    } else if j < i {
        assert(fp_key(s[j]) == fp_key(s[i]));
    }
}

// ---------------------------------------------------------------------------
// Executable helpers.

impl ProducerFingerprint {
    /// A copy of this fingerprint.
    pub fn copy(&self) -> (r: Self)
        ensures
            r@ == self@,
    {
        ProducerFingerprint {
            id: crate::text::copy_string(&self.id),
            kind: crate::text::copy_string(&self.kind),
            algorithm: crate::text::copy_string(&self.algorithm),
            value: crate::text::copy_string(&self.value),
        }
    }

    /// Whether two fingerprints are the same.
    pub fn same(&self, other: &ProducerFingerprint) -> (r: bool)
        ensures
            r == (self@ == other@),
    {
        crate::text::str_eq(self.id.as_str(), other.id.as_str()) && crate::text::str_eq(
            self.kind.as_str(),
            other.kind.as_str(),
        ) && crate::text::str_eq(self.algorithm.as_str(), other.algorithm.as_str())
            && crate::text::str_eq(self.value.as_str(), other.value.as_str())
    }
}

/// Compare keys by kind, then id.
fn compare_keys(k1: &str, i1: &str, k2: &str, i2: &str) -> (r: TextOrder)
    ensures
        r == TextOrder::Less <==> key_lt((k1@, i1@), (k2@, i2@)),
        r == TextOrder::Equal <==> (k1@, i1@) == (k2@, i2@),
        r == TextOrder::Greater <==> key_lt((k2@, i2@), (k1@, i1@)),
{
    match compare_text(k1, k2) {
        TextOrder::Less => {
            proof {
                lemma_text_lt_asymmetric(k1@, k2@);
            }
            TextOrder::Less
        },
        TextOrder::Greater => {
            proof {
                lemma_text_lt_asymmetric(k2@, k1@);
            }
            TextOrder::Greater
        },
        TextOrder::Equal => {
            let r = compare_text(i1, i2);
            proof {
                lemma_text_lt_irreflexive(k1@);
            }
            r
        },
    }
}

/// Position for a key in an increasing key list, and whether it is there.
fn key_slot(keys: &Vec<(String, String)>, kind: &str, id: &str) -> (r: (usize, bool))
    requires
        keys_sorted(pairs_view(keys@)),
    ensures
        r.0 <= keys@.len(),
        forall|j: int| 0 <= j < r.0 ==> key_lt(#[trigger] pairs_view(keys@)[j], (kind@, id@)),
        r.1 == pairs_view(keys@).contains((kind@, id@)),
        r.1 ==> r.0 < keys@.len() && pairs_view(keys@)[r.0 as int] == (kind@, id@),
        !r.1 ==> forall|j: int|
            r.0 <= j < keys@.len() ==> key_lt((kind@, id@), #[trigger] pairs_view(keys@)[j]),
{
    let ghost v = pairs_view(keys@);
    let ghost k = (kind@, id@);
    let mut i: usize = 0;
    while i < keys.len()
        invariant
            v == pairs_view(keys@),
            k == (kind@, id@),
            keys_sorted(v),
            i <= keys@.len(),
            forall|j: int| 0 <= j < i ==> key_lt(#[trigger] v[j], k),
        decreases keys@.len() - i,
    {
        match compare_keys(keys[i].0.as_str(), keys[i].1.as_str(), kind, id) {
            TextOrder::Less => {},
            TextOrder::Equal => {
                proof {
                    assert(v[i as int] == k);
                    assert(v.contains(k));
                }
                return (i, true);
            },
            TextOrder::Greater => {
                proof {
                    assert forall|j: int| i <= j < keys@.len() implies key_lt(k, #[trigger] v[j]) by {
                        if j > i {
                            lemma_key_lt_transitive(k, v[i as int], v[j]);
                        }
                    }
                    if v.contains(k) {
                        let m = v.index_of(k);
                        lemma_key_lt_irreflexive(k);
                    }
                }
                return (i, false);
            },
        }
        i = i + 1;
    }
    proof {
        if v.contains(k) {
            let m = v.index_of(k);
            lemma_key_lt_irreflexive(k);
        }
    }
    (i, false)
}

/// Inserting at the key's slot keeps keys increasing.
proof fn lemma_insert_at_slot(v: Seq<FingerprintKey>, i: int, k: FingerprintKey)
    requires
        keys_sorted(v),
        0 <= i <= v.len(),
        forall|j: int| 0 <= j < i ==> key_lt(#[trigger] v[j], k),
        forall|j: int| i <= j < v.len() ==> key_lt(k, #[trigger] v[j]),
    ensures
        keys_sorted(v.insert(i, k)),
{
    let w = v.insert(i, k);
    assert forall|a: int, b: int| 0 <= a < b < w.len() implies key_lt(#[trigger] w[a], #[trigger] w[b]) by {
        if a < i && b > i {
            lemma_key_lt_transitive(w[a], k, w[b]);
        }
    }
}

/// Index of a fingerprint with the given key.
fn find_key(fps: &[ProducerFingerprint], kind: &str, id: &str) -> (r: Option<usize>)
    ensures
        r.is_none() == !has_key(fps_view(fps@), (kind@, id@)),
        r matches Some(i) ==> i < fps@.len() && fp_key(fps@[i as int]@) == (kind@, id@),
{
    let ghost s = fps_view(fps@);
    let mut i: usize = 0;
    while i < fps.len()
        invariant
            s == fps_view(fps@),
            i <= fps@.len(),
            forall|j: int| 0 <= j < i ==> fp_key(#[trigger] s[j]) != (kind@, id@),
        decreases fps@.len() - i,
    {
        if crate::text::str_eq(fps[i].kind.as_str(), kind) && crate::text::str_eq(
            fps[i].id.as_str(),
            id,
        ) {
            proof {
                assert(s[i as int] == fps@[i as int]@);
            }
            return Some(i);
        }
        proof {
            assert(s[i as int] == fps@[i as int]@);
        }
        i = i + 1;
    }
    None
}

/// Keys repeated in `fingerprints`, once each, in increasing (kind, id) order.
pub fn duplicate_fingerprint_keys(fingerprints: &[ProducerFingerprint]) -> (r: Vec<(String, String)>)
    ensures
        dup_keys_ok(fps_view(fingerprints@), pairs_view(r@)),
{
    let ghost s = fps_view(fingerprints@);
    let n = fingerprints.len();
    let mut out: Vec<(String, String)> = Vec::new();
    let mut i: usize = 0;
    while i < n
        invariant
            n == fingerprints@.len(),
            s == fps_view(fingerprints@),
            i <= n,
            keys_sorted(pairs_view(out@)),
            forall|k: FingerprintKey| #[trigger]
                pairs_view(out@).contains(k) <==> (is_dup_key(s, k) && exists|m: int|
                    0 <= m < i && fp_key(#[trigger] s[m]) == k),
        decreases n - i,
    {
        let kind = fingerprints[i].kind.as_str();
        let id = fingerprints[i].id.as_str();
        let ghost k = (kind@, id@);
        proof {
            assert(s[i as int] == fingerprints@[i as int]@);
            assert(fp_key(s[i as int]) == k);
        }
        // Is there another fingerprint with this key?
        let mut repeated = false;
        let mut j: usize = 0;
        while j < n
            invariant
                n == fingerprints@.len(),
                s == fps_view(fingerprints@),
                i < n,
                j <= n,
                k == fp_key(s[i as int]),
                kind@ == k.0,
                id@ == k.1,
                repeated == exists|m: int| 0 <= m < j && m != i && fp_key(#[trigger] s[m]) == k,
            decreases n - j,
        {
            if j != i && crate::text::str_eq(fingerprints[j].kind.as_str(), kind)
                && crate::text::str_eq(fingerprints[j].id.as_str(), id) {
                proof {
                    assert(s[j as int] == fingerprints@[j as int]@);
                }
                repeated = true;
            } else {
                proof {
                    assert(s[j as int] == fingerprints@[j as int]@);
                }
            }
            j = j + 1;
        }
        proof {
            if repeated {
                let m = choose|m: int| 0 <= m < n && m != i && fp_key(#[trigger] s[m]) == k;
                if m < i {
                    assert(is_dup_key(s, k));
                } else {
                    assert(is_dup_key(s, k));
                }
            } else {
                assert(!is_dup_key(s, k)) by {
                    if is_dup_key(s, k) {
                        let (a, b) = choose|a: int, b: int|
                            0 <= a < b < s.len() && fp_key(#[trigger] s[a]) == k && fp_key(
                                #[trigger] s[b],
                            ) == k;
                        if a != i {
                            assert(fp_key(s[a]) == k);
                        } else {
                            assert(fp_key(s[b]) == k);
                        }
                    }
                }
            }
        }
        let ghost old_v = pairs_view(out@);
        if repeated {
            let (slot, present) = key_slot(&out, kind, id);
            if !present {
                out.insert(slot, (crate::text::owned(kind), crate::text::owned(id)));
                proof {
                    let w = old_v.insert(slot as int, k);
                    assert(pairs_view(out@) =~= w);
                    lemma_insert_at_slot(old_v, slot as int, k);
                    assert forall|kk: FingerprintKey| #[trigger] w.contains(kk) <==> (old_v.contains(kk)
                        || kk == k) by {
                        if w.contains(kk) {
                            let p = w.index_of(kk);
                            if p < slot {
                                assert(old_v[p] == kk);
                            } else if p > slot {
                                assert(old_v[p - 1] == kk);
                            }
                        }
                        if old_v.contains(kk) {
                            let p = old_v.index_of(kk);
                            if p < slot {
                                assert(w[p] == kk);
                            } else {
                                assert(w[p + 1] == kk);
                            }
                        }
                        if kk == k {
                            assert(w[slot as int] == k);
                        }
                    }
                }
            }
        }
        proof {
            let v = pairs_view(out@);
            assert(forall|kk: FingerprintKey| #[trigger] v.contains(kk) <==> (old_v.contains(kk) || (kk == k
                && is_dup_key(s, k))));
            assert forall|kk: FingerprintKey| #[trigger] v.contains(kk) <==> (is_dup_key(s, kk)
                && exists|m: int| 0 <= m < i + 1 && fp_key(#[trigger] s[m]) == kk) by {
                if exists|m: int| 0 <= m < i + 1 && fp_key(#[trigger] s[m]) == kk {
                    let m = choose|m: int| 0 <= m < i + 1 && fp_key(#[trigger] s[m]) == kk;
                    if m < i {
                        assert(exists|m2: int| 0 <= m2 < i && fp_key(#[trigger] s[m2]) == kk);
                    } else {
                        assert(kk == k);
                    }
                }
                if exists|m: int| 0 <= m < i && fp_key(#[trigger] s[m]) == kk {
                    let m = choose|m: int| 0 <= m < i && fp_key(#[trigger] s[m]) == kk;
                    assert(0 <= m < i + 1 && fp_key(s[m]) == kk);
                }
                if old_v.contains(kk) {
                    assert(is_dup_key(s, kk) && exists|m: int| 0 <= m < i && fp_key(#[trigger] s[m]) == kk);
                }
                if kk == k {
                    assert(fp_key(s[i as int]) == kk);
                }
            }
        }
        i = i + 1;
    }
    proof {
        let v = pairs_view(out@);
        assert forall|k: FingerprintKey| #![trigger v.contains(k)] #![trigger is_dup_key(s, k)]
            v.contains(k) <==> is_dup_key(s, k) by {
            if is_dup_key(s, k) {
                let (a, b) = choose|a: int, b: int|
                    0 <= a < b < s.len() && fp_key(#[trigger] s[a]) == k && fp_key(#[trigger] s[b])
                        == k;
                assert(fp_key(s[a]) == k);
            }
        }
    }
    out
}


/// Membership after an insertion.
proof fn lemma_insert_contains<T>(v: Seq<T>, i: int, x: T, g: T)
    requires
        0 <= i <= v.len(),
    ensures
        v.insert(i, x).contains(g) <==> (v.contains(g) || g == x),
{
    let w = v.insert(i, x);
    if w.contains(g) {
        let p = w.index_of(g);
        if p < i {
            assert(v[p] == g);
        } else if p > i {
            assert(v[p - 1] == g);
        }
    }
    if v.contains(g) {
        let p = v.index_of(g);
        if p < i {
            assert(w[p] == g);
        } else {
            assert(w[p + 1] == g);
        }
    }
    if g == x {
        assert(w[i] == x);
    }
}

/// Membership after a push.
proof fn lemma_push_contains<T>(v: Seq<T>, x: T, g: T)
    ensures
        v.push(x).contains(g) <==> (v.contains(g) || g == x),
{
    lemma_insert_contains(v, v.len() as int, x, g);
    assert(v.insert(v.len() as int, x) =~= v.push(x));
}

/// Position for a key in a key-sorted fingerprint list, and whether it is there.
fn fp_slot(fps: &Vec<ProducerFingerprint>, kind: &str, id: &str) -> (r: (usize, bool))
    requires
        keys_sorted(fp_keys(fps_view(fps@))),
    ensures
        r.0 <= fps@.len(),
        forall|j: int| 0 <= j < r.0 ==> key_lt(#[trigger] fp_keys(fps_view(fps@))[j], (kind@, id@)),
        r.1 == fp_keys(fps_view(fps@)).contains((kind@, id@)),
        r.1 ==> r.0 < fps@.len() && fp_keys(fps_view(fps@))[r.0 as int] == (kind@, id@),
        !r.1 ==> forall|j: int|
            r.0 <= j < fps@.len() ==> key_lt((kind@, id@), #[trigger] fp_keys(fps_view(fps@))[j]),
{
    let ghost v = fp_keys(fps_view(fps@));
    let ghost k = (kind@, id@);
    let mut i: usize = 0;
    while i < fps.len()
        invariant
            v == fp_keys(fps_view(fps@)),
            k == (kind@, id@),
            keys_sorted(v),
            i <= fps@.len(),
            forall|j: int| 0 <= j < i ==> key_lt(#[trigger] v[j], k),
        decreases fps@.len() - i,
    {
        proof {
            assert(v[i as int] == (fps@[i as int].kind@, fps@[i as int].id@));
        }
        match compare_keys(fps[i].kind.as_str(), fps[i].id.as_str(), kind, id) {
            TextOrder::Less => {},
            TextOrder::Equal => {
                proof {
                    assert(v[i as int] == k);
                    assert(v.contains(k));
                }
                return (i, true);
            },
            TextOrder::Greater => {
                proof {
                    assert forall|j: int| i <= j < fps@.len() implies key_lt(k, #[trigger] v[j]) by {
                        if j > i {
                            lemma_key_lt_transitive(k, v[i as int], v[j]);
                        }
                    }
                    if v.contains(k) {
                        let m = v.index_of(k);
                        lemma_key_lt_irreflexive(k);
                    }
                }
                return (i, false);
            },
        }
        i = i + 1;
    }
    proof {
        if v.contains(k) {
            let m = v.index_of(k);
            lemma_key_lt_irreflexive(k);
        }
    }
    (i, false)
}

/// Copies of `fps` in increasing (kind, id) order.
fn sorted_by_key(fps: &[ProducerFingerprint]) -> (r: Vec<ProducerFingerprint>)
    requires
        !has_dup_key(fps_view(fps@)),
    ensures
        keys_sorted(fp_keys(fps_view(r@))),
        forall|f: FingerprintView| #[trigger] fps_view(r@).contains(f) <==> fps_view(fps@).contains(f),
{
    let ghost s = fps_view(fps@);
    let mut out: Vec<ProducerFingerprint> = Vec::new();
    let mut i: usize = 0;
    while i < fps.len()
        invariant
            s == fps_view(fps@),
            !has_dup_key(s),
            i <= s.len(),
            keys_sorted(fp_keys(fps_view(out@))),
            forall|f: FingerprintView| #[trigger] fps_view(out@).contains(f) <==> exists|t: int|
                0 <= t < i && s[t] == f,
        decreases s.len() - i,
    {
        let f = &fps[i];
        let ghost x = f@;
        proof {
            assert(s[i as int] == x);
        }
        let (slot, present) = fp_slot(&out, f.kind.as_str(), f.id.as_str());
        let ghost ov = fps_view(out@);
        proof {
            if present {
                let kv = fp_keys(ov);
                assert(kv[slot as int] == fp_key(ov[slot as int]));
                assert(ov.contains(ov[slot as int]));
                let t = choose|t: int| 0 <= t < i && s[t] == ov[slot as int];
                lemma_no_dup_distinct(s, t, i as int);
            }
        }
        let c = f.copy();
        out.insert(slot, c);
        proof {
            let w = ov.insert(slot as int, x);
            assert(fps_view(out@) =~= w);
            assert(fp_keys(w) =~= fp_keys(ov).insert(slot as int, fp_key(x)));
            lemma_insert_at_slot(fp_keys(ov), slot as int, fp_key(x));
            assert forall|g: FingerprintView| #[trigger] w.contains(g) <==> exists|t: int|
                0 <= t < i + 1 && s[t] == g by {
                lemma_insert_contains(ov, slot as int, x, g);
                if exists|t: int| 0 <= t < i + 1 && s[t] == g {
                    let t = choose|t: int| 0 <= t < i + 1 && s[t] == g;
                    if t < i {
                        assert(exists|t2: int| 0 <= t2 < i && s[t2] == g);
                    }
                }
                if exists|t: int| 0 <= t < i && s[t] == g {
                    let t = choose|t: int| 0 <= t < i && s[t] == g;
                    assert(0 <= t < i + 1 && s[t] == g);
                }
                if g == x {
                    assert(s[i as int] == g);
                }
            }
        }
        i = i + 1;
    }
    proof {
        assert forall|f: FingerprintView| #[trigger] fps_view(out@).contains(f) <==> s.contains(f) by {
            if s.contains(f) {
                let t = s.index_of(f);
                assert(0 <= t < i && s[t] == f);
            }
        }
    }
    out
}


/// Fingerprints of `sorted` (a key-ordered copy of `from`) whose key `other` lacks.
fn absent_from(
    sorted: &Vec<ProducerFingerprint>,
    from: &[ProducerFingerprint],
    other: &[ProducerFingerprint],
) -> (r: Vec<ProducerFingerprint>)
    requires
        keys_sorted(fp_keys(fps_view(sorted@))),
        forall|f: FingerprintView| #[trigger]
            fps_view(sorted@).contains(f) <==> fps_view(from@).contains(f),
    ensures
        absent_ok(fps_view(from@), fps_view(other@), fps_view(r@)),
{
    let ghost sv = fps_view(sorted@);
    let ghost ov = fps_view(other@);
    let n = sorted.len();
    let mut out: Vec<ProducerFingerprint> = Vec::new();
    let mut i: usize = 0;
    while i < n
        invariant
            n == sv.len(),
            sv == fps_view(sorted@),
            ov == fps_view(other@),
            keys_sorted(fp_keys(sv)),
            i <= n,
            keys_sorted(fp_keys(fps_view(out@))),
            forall|t: int, j: int|
                0 <= t < out@.len() && i <= j < n ==> key_lt(
                    #[trigger] fp_keys(fps_view(out@))[t],
                    #[trigger] fp_keys(sv)[j],
                ),
            forall|f: FingerprintView| #[trigger]
                fps_view(out@).contains(f) <==> ((exists|t: int| 0 <= t < i && sv[t] == f)
                    && !has_key(ov, fp_key(f))),
        decreases n - i,
    {
        let x = &sorted[i];
        let ghost xv = x@;
        proof {
            assert(sv[i as int] == xv);
            assert(fp_keys(sv)[i as int] == fp_key(xv));
        }
        let found = find_key(other, x.kind.as_str(), x.id.as_str());
        let ghost mv = fps_view(out@);
        if found.is_none() {
            out.push(x.copy());
            proof {
                let w = mv.push(xv);
                assert(fps_view(out@) =~= w);
                let kw = fp_keys(w);
                assert(kw =~= fp_keys(mv).push(fp_key(xv)));
                assert forall|a: int, b: int| 0 <= a < b < kw.len() implies key_lt(
                    #[trigger] kw[a],
                    #[trigger] kw[b],
                ) by {
                    if b == kw.len() - 1 {
                        assert(kw[a] == fp_keys(mv)[a]);
                    } else {
                        assert(kw[a] == fp_keys(mv)[a]);
                        assert(kw[b] == fp_keys(mv)[b]);
                    }
                }
                assert forall|t: int, j: int| 0 <= t < w.len() && i + 1 <= j < n implies key_lt(
                    #[trigger] fp_keys(w)[t],
                    #[trigger] fp_keys(sv)[j],
                ) by {
                    if t == w.len() - 1 {
                        assert(fp_keys(w)[t] == fp_keys(sv)[i as int]);
                    } else {
                        assert(fp_keys(w)[t] == fp_keys(mv)[t]);
                    }
                }
            }
        }
        proof {
            let w = fps_view(out@);
            assert forall|f: FingerprintView| #[trigger] w.contains(f) <==> ((exists|t: int|
                0 <= t < i + 1 && sv[t] == f) && !has_key(ov, fp_key(f))) by {
                if found.is_none() {
                    lemma_push_contains(mv, xv, f);
                }
                if exists|t: int| 0 <= t < i + 1 && sv[t] == f {
                    let t = choose|t: int| 0 <= t < i + 1 && sv[t] == f;
                    if t < i {
                        assert(exists|t2: int| 0 <= t2 < i && sv[t2] == f);
                    } else {
                        assert(f == xv);
                    }
                }
                if exists|t: int| 0 <= t < i && sv[t] == f {
                    let t = choose|t: int| 0 <= t < i && sv[t] == f;
                    assert(0 <= t < i + 1 && sv[t] == f);
                }
                if f == xv {
                    assert(sv[i as int] == f);
                }
            }
            assert forall|t: int, j: int| 0 <= t < out@.len() && i + 1 <= j < n implies key_lt(
                #[trigger] fp_keys(fps_view(out@))[t],
                #[trigger] fp_keys(sv)[j],
            ) by {
                if found.is_some() {
                    assert(fp_keys(fps_view(out@))[t] == fp_keys(mv)[t]);
                }
            }
        }
        i = i + 1;
    }
    proof {
        let w = fps_view(out@);
        assert forall|f: FingerprintView| #![trigger w.contains(f)] #![trigger fps_view(from@).contains(f)]
            w.contains(f) <==> (fps_view(from@).contains(f) && !has_key(ov, fp_key(f))) by {
            if sv.contains(f) {
                let t = sv.index_of(f);
                assert(0 <= t < i && sv[t] == f);
            }
            if exists|t: int| 0 <= t < i && sv[t] == f {
                let t = choose|t: int| 0 <= t < i && sv[t] == f;
                assert(sv.contains(f));
            }
        }
    }
    out
}


/// Pairs of fingerprints of `sorted` (a key-ordered copy of `expected`) and
/// `actual` with one key and different content.
fn mismatches(
    sorted: &Vec<ProducerFingerprint>,
    expected: &[ProducerFingerprint],
    actual: &[ProducerFingerprint],
) -> (r: Vec<ProducerFingerprintMismatch>)
    requires
        keys_sorted(fp_keys(fps_view(sorted@))),
        forall|f: FingerprintView| #[trigger]
            fps_view(sorted@).contains(f) <==> fps_view(expected@).contains(f),
        !has_dup_key(fps_view(actual@)),
    ensures
        mismatch_ok(fps_view(expected@), fps_view(actual@), mismatches_view(r@)),
{
    let ghost sv = fps_view(sorted@);
    let ghost av = fps_view(actual@);
    let n = sorted.len();
    let mut out: Vec<ProducerFingerprintMismatch> = Vec::new();
    let mut i: usize = 0;
    while i < n
        invariant
            n == sv.len(),
            sv == fps_view(sorted@),
            av == fps_view(actual@),
            !has_dup_key(av),
            keys_sorted(fp_keys(sv)),
            i <= n,
            keys_sorted(mismatch_keys(mismatches_view(out@))),
            forall|t: int, j: int|
                0 <= t < out@.len() && i <= j < n ==> key_lt(
                    #[trigger] mismatch_keys(mismatches_view(out@))[t],
                    #[trigger] fp_keys(sv)[j],
                ),
            forall|p: (FingerprintView, FingerprintView)| #[trigger]
                mismatches_view(out@).contains(p) <==> ((exists|t: int| 0 <= t < i && sv[t] == p.0)
                    && av.contains(p.1) && fp_key(p.0) == fp_key(p.1) && p.0 != p.1),
        decreases n - i,
    {
        let x = &sorted[i];
        let ghost xv = x@;
        proof {
            assert(sv[i as int] == xv);
            assert(fp_keys(sv)[i as int] == fp_key(xv));
        }
        let found = find_key(actual, x.kind.as_str(), x.id.as_str());
        let ghost mv = mismatches_view(out@);
        let mut pushed = false;
        let ghost mut yv: FingerprintView = xv;
        match found {
            Some(j) => {
                proof {
                    yv = actual@[j as int]@;
                    assert(av[j as int] == yv);
                }
                if !x.same(&actual[j]) {
                    out.push(ProducerFingerprintMismatch { expected: x.copy(), actual: actual[j].copy() });
                    pushed = true;
                    proof {
                        let w = mv.push((xv, yv));
                        assert(mismatches_view(out@) =~= w);
                        let kw = mismatch_keys(w);
                        assert(kw =~= mismatch_keys(mv).push(fp_key(xv)));
                        assert forall|a: int, b: int| 0 <= a < b < kw.len() implies key_lt(
                            #[trigger] kw[a],
                            #[trigger] kw[b],
                        ) by {
                            if b == kw.len() - 1 {
                                assert(kw[a] == mismatch_keys(mv)[a]);
                            } else {
                                assert(kw[a] == mismatch_keys(mv)[a]);
                                assert(kw[b] == mismatch_keys(mv)[b]);
                            }
                        }
                        assert forall|t: int, jj: int| 0 <= t < w.len() && i + 1 <= jj < n implies key_lt(
                            #[trigger] mismatch_keys(w)[t],
                            #[trigger] fp_keys(sv)[jj],
                        ) by {
                            if t == w.len() - 1 {
                                assert(mismatch_keys(w)[t] == fp_keys(sv)[i as int]);
                            } else {
                                assert(mismatch_keys(w)[t] == mismatch_keys(mv)[t]);
                            }
                        }
                    }
                }
            },
            None => {},
        }
        proof {
            let w = mismatches_view(out@);
            assert forall|p: (FingerprintView, FingerprintView)| #[trigger] w.contains(p) <==> ((exists|
                t: int,
            | 0 <= t < i + 1 && sv[t] == p.0) && av.contains(p.1) && fp_key(p.0) == fp_key(p.1) && p.0
                != p.1) by {
                if pushed {
                    lemma_push_contains(mv, (xv, yv), p);
                }
                if exists|t: int| 0 <= t < i + 1 && sv[t] == p.0 {
                    let t = choose|t: int| 0 <= t < i + 1 && sv[t] == p.0;
                    if t < i {
                        assert(exists|t2: int| 0 <= t2 < i && sv[t2] == p.0);
                    } else {
                        assert(p.0 == xv);
                        if av.contains(p.1) && fp_key(p.0) == fp_key(p.1) && p.0 != p.1 {
                            let q = av.index_of(p.1);
                            assert(has_key(av, fp_key(xv)));
                            let j = found.unwrap();
                            lemma_no_dup_distinct(av, q, j as int);
                            assert(p.1 == yv);
                        }
                    }
                }
                if exists|t: int| 0 <= t < i && sv[t] == p.0 {
                    let t = choose|t: int| 0 <= t < i && sv[t] == p.0;
                    assert(0 <= t < i + 1 && sv[t] == p.0);
                }
                if pushed && p == (xv, yv) {
                    assert(sv[i as int] == p.0);
                    assert(av.contains(yv));
                }
            }
            assert forall|t: int, jj: int| 0 <= t < out@.len() && i + 1 <= jj < n implies key_lt(
                #[trigger] mismatch_keys(mismatches_view(out@))[t],
                #[trigger] fp_keys(sv)[jj],
            ) by {
                if !pushed {
                    assert(mismatch_keys(mismatches_view(out@))[t] == mismatch_keys(mv)[t]);
                }
            }
        }
        i = i + 1;
    }
    proof {
        let w = mismatches_view(out@);
        let ev = fps_view(expected@);
        assert forall|p: (FingerprintView, FingerprintView)| #![trigger w.contains(p)]
            w.contains(p) <==> (ev.contains(p.0) && av.contains(p.1) && fp_key(p.0) == fp_key(p.1)
                && p.0 != p.1) by {
            if sv.contains(p.0) {
                let t = sv.index_of(p.0);
                assert(0 <= t < i && sv[t] == p.0);
            }
            if exists|t: int| 0 <= t < i && sv[t] == p.0 {
                let t = choose|t: int| 0 <= t < i && sv[t] == p.0;
                assert(sv.contains(p.0));
            }
        }
    }
    out
}

/// A key list that satisfies `dup_keys_ok` is empty exactly when no key repeats.
proof fn lemma_dup_keys_empty(s: Seq<FingerprintView>, d: Seq<FingerprintKey>)
    requires
        dup_keys_ok(s, d),
    ensures
        d.len() == 0 <==> !has_dup_key(s),
{
    if d.len() > 0 {
        assert(d.contains(d[0]));
        assert(is_dup_key(s, d[0]));
    }
    if has_dup_key(s) {
        let (a, b) = choose|a: int, b: int|
            0 <= a < b < s.len() && fp_key(#[trigger] s[a]) == fp_key(#[trigger] s[b]);
        assert(is_dup_key(s, fp_key(s[a])));
        assert(d.contains(fp_key(s[a])));
    }
}

/// Compare producer content fingerprints without consulting host resources.
///
/// Fingerprints are identified by (kind, id). When either side repeats a key
/// the result is `Invalid`, listing the repeated keys of each side. Otherwise
/// the result lists, in key order, the expected fingerprints the actual side
/// lacks, the pairs whose content differs, and the actual fingerprints that
/// were not expected; `Fresh` when all three are empty.
pub fn compare_producer_fingerprints(
    expected: &[ProducerFingerprint],
    actual: &[ProducerFingerprint],
) -> (r: ProducerFreshness)
    ensures
        compare_outcome_ok(fps_view(expected@), fps_view(actual@), r),
{
    let ghost ev = fps_view(expected@);
    let ghost av = fps_view(actual@);
    let expected_duplicates = duplicate_fingerprint_keys(expected);
    let actual_duplicates = duplicate_fingerprint_keys(actual);
    proof {
        lemma_dup_keys_empty(ev, pairs_view(expected_duplicates@));
        lemma_dup_keys_empty(av, pairs_view(actual_duplicates@));
    }
    if expected_duplicates.len() > 0 || actual_duplicates.len() > 0 {
        return ProducerFreshness::Invalid { expected_duplicates, actual_duplicates };
    }
    let expected_sorted = sorted_by_key(expected);
    let actual_sorted = sorted_by_key(actual);
    let missing = absent_from(&expected_sorted, expected, actual);
    let mismatched = mismatches(&expected_sorted, expected, actual);
    let unexpected = absent_from(&actual_sorted, actual, expected);
    let a = missing.len() == 0;
    let b = mismatched.len() == 0;
    let c = unexpected.len() == 0;
    if a && b && c {
        proof {
            assert(fps_view(missing@) =~= Seq::<FingerprintView>::empty());
            assert(mismatches_view(mismatched@) =~= Seq::<(FingerprintView, FingerprintView)>::empty());
            assert(fps_view(unexpected@) =~= Seq::<FingerprintView>::empty());
        }
        ProducerFreshness::Fresh
    } else if !a && b && c {
        proof {
            assert(mismatches_view(mismatched@) =~= Seq::<(FingerprintView, FingerprintView)>::empty());
            assert(fps_view(unexpected@) =~= Seq::<FingerprintView>::empty());
        }
        ProducerFreshness::Missing { expected: missing }
    } else if a && !b && c {
        proof {
            assert(fps_view(missing@) =~= Seq::<FingerprintView>::empty());
            assert(fps_view(unexpected@) =~= Seq::<FingerprintView>::empty());
        }
        ProducerFreshness::Mismatch { entries: mismatched }
    } else if a && b && !c {
        proof {
            assert(fps_view(missing@) =~= Seq::<FingerprintView>::empty());
            assert(mismatches_view(mismatched@) =~= Seq::<(FingerprintView, FingerprintView)>::empty());
        }
        ProducerFreshness::Unexpected { actual: unexpected }
    } else {
        ProducerFreshness::Mixed { missing, mismatched, unexpected }
    }
}


// ---------------------------------------------------------------------------
// Laws of fingerprint comparison.

/// Two sequences increasing in `k` with the same members are equal.
proof fn lemma_sorted_by_key_unique<T>(s: Seq<T>, t: Seq<T>, k: spec_fn(T) -> FingerprintKey)
    requires
        forall|i: int, j: int| 0 <= i < j < s.len() ==> key_lt(k(#[trigger] s[i]), k(#[trigger] s[j])),
        forall|i: int, j: int| 0 <= i < j < t.len() ==> key_lt(k(#[trigger] t[i]), k(#[trigger] t[j])),
        forall|x: T| s.contains(x) <==> t.contains(x),
    ensures
        s == t,
    decreases s.len() + t.len(),
{
    if s.len() == 0 {
        if t.len() > 0 {
            assert(t.contains(t[0]));
        }
        assert(s =~= t);
    } else if t.len() == 0 {
        assert(s.contains(s[0]));
    } else {
        assert(s.contains(s[0]));
        assert(t.contains(t[0]));
        let i = t.index_of(s[0]);
        let j = s.index_of(t[0]);
        if s[0] != t[0] {
            assert(i > 0 && j > 0);
            lemma_key_lt_transitive(k(s[0]), k(t[0]), k(s[0]));
            lemma_key_lt_irreflexive(k(s[0]));
        }
        let s1 = s.drop_first();
        let t1 = t.drop_first();
        assert forall|x: T| s1.contains(x) <==> t1.contains(x) by {
            if s1.contains(x) {
                let a = s1.index_of(x);
                assert(s[a + 1] == x);
                assert(key_lt(k(s[0]), k(x)));
                assert(t.contains(x));
                let b = t.index_of(x);
                if b == 0 {
                    lemma_key_lt_irreflexive(k(x));
                }
                assert(t1[b - 1] == x);
            }
            if t1.contains(x) {
                let a = t1.index_of(x);
                assert(t[a + 1] == x);
                assert(key_lt(k(t[0]), k(x)));
                assert(s.contains(x));
                let b = s.index_of(x);
                if b == 0 {
                    lemma_key_lt_irreflexive(k(x));
                }
                assert(s1[b - 1] == x);
            }
        }
        lemma_sorted_by_key_unique(s1, t1, k);
        assert(s =~= seq![s[0]] + s1);
        assert(t =~= seq![t[0]] + t1);
    }
}

proof fn lemma_absent_unique(
    from: Seq<FingerprintView>,
    other: Seq<FingerprintView>,
    m1: Seq<FingerprintView>,
    m2: Seq<FingerprintView>,
)
    requires
        absent_ok(from, other, m1),
        absent_ok(from, other, m2),
    ensures
        m1 == m2,
{
    let k = |f: FingerprintView| fp_key(f);
    assert forall|i: int, j: int| 0 <= i < j < m1.len() implies key_lt(k(#[trigger] m1[i]), k(#[trigger] m1[j])) by {
        assert(fp_keys(m1)[i] == fp_key(m1[i]));
        assert(fp_keys(m1)[j] == fp_key(m1[j]));
    }
    assert forall|i: int, j: int| 0 <= i < j < m2.len() implies key_lt(k(#[trigger] m2[i]), k(#[trigger] m2[j])) by {
        assert(fp_keys(m2)[i] == fp_key(m2[i]));
        assert(fp_keys(m2)[j] == fp_key(m2[j]));
    }
    assert forall|x: FingerprintView| m1.contains(x) <==> m2.contains(x) by {
        if m1.contains(x) {
            assert(from.contains(x));
        }
        if m2.contains(x) {
            assert(from.contains(x));
        }
    }
    lemma_sorted_by_key_unique(m1, m2, k);
}

/// No fingerprint of `s` lacks its own key in `s`.
proof fn lemma_absent_self_empty(s: Seq<FingerprintView>, m: Seq<FingerprintView>)
    requires
        absent_ok(s, s, m),
    ensures
        m.len() == 0,
{
    if m.len() > 0 {
        assert(m.contains(m[0]));
        let f = m[0];
        let i = s.index_of(f);
        assert(fp_key(s[i]) == fp_key(f));
    }
}

/// Comparing a fingerprint list with itself finds it fresh: with no repeated
/// key the result is `Fresh`, and with one it is `Invalid`.
pub proof fn lemma_compare_self_fresh(s: Seq<FingerprintView>, r: ProducerFreshness)
    requires
        compare_outcome_ok(s, s, r),
    ensures
        !has_dup_key(s) ==> r == ProducerFreshness::Fresh,
        has_dup_key(s) ==> r is Invalid,
{
    if !has_dup_key(s) {
        let (m, mm, u) = freshness_lists(r);
        lemma_absent_self_empty(s, m);
        lemma_absent_self_empty(s, u);
        if mm.len() > 0 {
            assert(mm.contains(mm[0]));
            let p = mm[0];
            let i = s.index_of(p.0);
            let j = s.index_of(p.1);
            lemma_no_dup_distinct(s, i, j);
        }
    }
}

/// The result is `Fresh` exactly when both sides hold the same fingerprints,
/// provided neither side repeats a key.
pub proof fn lemma_compare_fresh_iff_same(
    e: Seq<FingerprintView>,
    a: Seq<FingerprintView>,
    r: ProducerFreshness,
)
    requires
        !has_dup_key(e),
        !has_dup_key(a),
        compare_outcome_ok(e, a, r),
    ensures
        r == ProducerFreshness::Fresh <==> (forall|f: FingerprintView| e.contains(f) <==> a.contains(f)),
{
    let (m, mm, u) = freshness_lists(r);
    if r == ProducerFreshness::Fresh {
        assert forall|f: FingerprintView| e.contains(f) <==> a.contains(f) by {
            if e.contains(f) {
                assert(!m.contains(f));
                assert(has_key(a, fp_key(f)));
                let j = choose|j: int| 0 <= j < a.len() && fp_key(#[trigger] a[j]) == fp_key(f);
                if a[j] != f {
                    assert(mm.contains((f, a[j])));
                }
            }
            if a.contains(f) {
                assert(!u.contains(f));
                assert(has_key(e, fp_key(f)));
                let j = choose|j: int| 0 <= j < e.len() && fp_key(#[trigger] e[j]) == fp_key(f);
                if e[j] != f {
                    assert(mm.contains((e[j], f)));
                }
            }
        }
    } else {
        if forall|f: FingerprintView| e.contains(f) <==> a.contains(f) {
            if m.len() > 0 {
                assert(m.contains(m[0]));
                let i = e.index_of(m[0]);
                assert(a.contains(m[0]));
                let j = a.index_of(m[0]);
                assert(fp_key(a[j]) == fp_key(m[0]));
            }
            if u.len() > 0 {
                assert(u.contains(u[0]));
                assert(e.contains(u[0]));
                let j = e.index_of(u[0]);
                assert(fp_key(e[j]) == fp_key(u[0]));
            }
            if mm.len() > 0 {
                assert(mm.contains(mm[0]));
                let p = mm[0];
                assert(a.contains(p.0));
                let i = a.index_of(p.0);
                let j = a.index_of(p.1);
                lemma_no_dup_distinct(a, i, j);
            }
        }
    }
}

/// Exchanging the sides of a comparison exchanges what is missing with what
/// is unexpected, and swaps each mismatched pair.
pub proof fn lemma_compare_swap(
    e: Seq<FingerprintView>,
    a: Seq<FingerprintView>,
    r: ProducerFreshness,
    r2: ProducerFreshness,
)
    requires
        !has_dup_key(e),
        !has_dup_key(a),
        compare_outcome_ok(e, a, r),
        compare_outcome_ok(a, e, r2),
    ensures
        freshness_lists(r2).0 == freshness_lists(r).2,
        freshness_lists(r2).2 == freshness_lists(r).0,
        freshness_lists(r2).1 == freshness_lists(r).1.map_values(
            |p: (FingerprintView, FingerprintView)| (p.1, p.0),
        ),
{
    let (m, mm, u) = freshness_lists(r);
    let (m2, mm2, u2) = freshness_lists(r2);
    lemma_absent_unique(a, e, m2, u);
    lemma_absent_unique(e, a, u2, m);
    let sw = mm.map_values(|p: (FingerprintView, FingerprintView)| (p.1, p.0));
    let k = |p: (FingerprintView, FingerprintView)| fp_key(p.0);
    assert forall|i: int, j: int| 0 <= i < j < sw.len() implies key_lt(k(#[trigger] sw[i]), k(#[trigger] sw[j])) by {
        assert(mismatch_keys(mm)[i] == fp_key(mm[i].0));
        assert(mismatch_keys(mm)[j] == fp_key(mm[j].0));
        assert(mm.contains(mm[i]));
        assert(mm.contains(mm[j]));
    }
    assert forall|i: int, j: int| 0 <= i < j < mm2.len() implies key_lt(k(#[trigger] mm2[i]), k(#[trigger] mm2[j])) by {
        assert(mismatch_keys(mm2)[i] == fp_key(mm2[i].0));
        assert(mismatch_keys(mm2)[j] == fp_key(mm2[j].0));
    }
    assert forall|p: (FingerprintView, FingerprintView)| mm2.contains(p) <==> sw.contains(p) by {
        if mm2.contains(p) {
            assert(mm.contains((p.1, p.0)));
            let i = mm.index_of((p.1, p.0));
            assert(sw[i] == p);
        }
        if sw.contains(p) {
            let i = sw.index_of(p);
            assert(mm.contains(mm[i]));
        }
    }
    lemma_sorted_by_key_unique(mm2, sw, k);
}


/// Whether a comparison is `Fresh` depends on the compared lists alone.
pub proof fn lemma_compare_fresh_determined(
    e: Seq<FingerprintView>,
    a: Seq<FingerprintView>,
    r1: ProducerFreshness,
    r2: ProducerFreshness,
)
    requires
        compare_outcome_ok(e, a, r1),
        compare_outcome_ok(e, a, r2),
    ensures
        (r1 is Fresh) <==> (r2 is Fresh),
{
    if !has_dup_key(e) && !has_dup_key(a) {
        lemma_compare_fresh_iff_same(e, a, r1);
        lemma_compare_fresh_iff_same(e, a, r2);
    }
}


proof fn lemma_same_contents_keys(s1: Seq<FingerprintView>, s2: Seq<FingerprintView>)
    requires
        forall|f: FingerprintView| s1.contains(f) <==> s2.contains(f),
    ensures
        forall|k: FingerprintKey| has_key(s1, k) <==> has_key(s2, k),
{
    assert forall|k: FingerprintKey| has_key(s1, k) implies has_key(s2, k) by {
        let i = choose|i: int| 0 <= i < s1.len() && fp_key(#[trigger] s1[i]) == k;
        assert(s1.contains(s1[i]));
        let j = choose|j: int| 0 <= j < s2.len() && s2[j] == s1[i];
        assert(fp_key(s2[j]) == k);
    }
    assert forall|k: FingerprintKey| has_key(s2, k) implies has_key(s1, k) by {
        let i = choose|i: int| 0 <= i < s2.len() && fp_key(#[trigger] s2[i]) == k;
        assert(s2.contains(s2[i]));
        let j = choose|j: int| 0 <= j < s1.len() && s1[j] == s2[i];
        assert(fp_key(s1[j]) == k);
    }
}

/// A key repeated in `s1` is repeated in every reordering `s2` of it.
proof fn lemma_dup_key_transfer(s1: Seq<FingerprintView>, s2: Seq<FingerprintView>, k: FingerprintKey)
    requires
        s1.to_multiset() == s2.to_multiset(),
        is_dup_key(s1, k),
    ensures
        is_dup_key(s2, k),
{
    let (i, j) = choose|i: int, j: int|
        0 <= i < j < s1.len() && fp_key(#[trigger] s1[i]) == k && fp_key(#[trigger] s1[j]) == k;
    let x = s1[i];
    let y = s1[j];
    assert(s1.contains(x));
    vstd::seq_lib::to_multiset_contains(s1, x);
    vstd::seq_lib::to_multiset_contains(s2, x);
    let p = choose|p: int| 0 <= p < s2.len() && s2[p] == x;
    let r1 = s1.remove(i);
    let r2 = s2.remove(p);
    vstd::seq_lib::to_multiset_remove(s1, i);
    vstd::seq_lib::to_multiset_remove(s2, p);
    assert(r1[j - 1] == y);
    assert(r1.contains(y));
    vstd::seq_lib::to_multiset_contains(r1, y);
    vstd::seq_lib::to_multiset_contains(r2, y);
    let q1 = choose|q: int| 0 <= q < r2.len() && r2[q] == y;
    let q: int = if q1 < p { q1 } else { q1 + 1 };
    assert(s2[q] == y);
    assert(q != p);
    if p < q {
        assert(fp_key(s2[p]) == k && fp_key(s2[q]) == k);
    } else {
        assert(fp_key(s2[q]) == k && fp_key(s2[p]) == k);
    }
}

proof fn lemma_dup_keys_same(s1: Seq<FingerprintView>, s2: Seq<FingerprintView>)
    requires
        s1.to_multiset() == s2.to_multiset(),
    ensures
        forall|k: FingerprintKey| #[trigger] is_dup_key(s1, k) <==> is_dup_key(s2, k),
        has_dup_key(s1) <==> has_dup_key(s2),
{
    assert forall|k: FingerprintKey| #[trigger] is_dup_key(s1, k) <==> is_dup_key(s2, k) by {
        if is_dup_key(s1, k) {
            lemma_dup_key_transfer(s1, s2, k);
        }
        if is_dup_key(s2, k) {
            lemma_dup_key_transfer(s2, s1, k);
        }
    }
    if has_dup_key(s1) {
        let (i, j) = choose|i: int, j: int|
            0 <= i < j < s1.len() && fp_key(#[trigger] s1[i]) == fp_key(#[trigger] s1[j]);
        assert(is_dup_key(s1, fp_key(s1[i])));
        assert(is_dup_key(s2, fp_key(s1[i])));
    }
    if has_dup_key(s2) {
        let (i, j) = choose|i: int, j: int|
            0 <= i < j < s2.len() && fp_key(#[trigger] s2[i]) == fp_key(#[trigger] s2[j]);
        assert(is_dup_key(s2, fp_key(s2[i])));
        assert(is_dup_key(s1, fp_key(s2[i])));
    }
}

/// The order of the fingerprints on either side does not matter: two
/// orderings of the same fingerprints compare alike.
pub proof fn lemma_compare_order_free(
    e1: Seq<FingerprintView>,
    e2: Seq<FingerprintView>,
    a1: Seq<FingerprintView>,
    a2: Seq<FingerprintView>,
    r: ProducerFreshness,
)
    requires
        e1.to_multiset() == e2.to_multiset(),
        a1.to_multiset() == a2.to_multiset(),
        compare_outcome_ok(e1, a1, r),
    ensures
        compare_outcome_ok(e2, a2, r),
{
    lemma_dup_keys_same(e1, e2);
    lemma_dup_keys_same(a1, a2);
    if !has_dup_key(e1) && !has_dup_key(a1) {
        assert forall|f: FingerprintView| e1.contains(f) <==> e2.contains(f) by {
            vstd::seq_lib::to_multiset_contains(e1, f);
            vstd::seq_lib::to_multiset_contains(e2, f);
        }
        assert forall|f: FingerprintView| a1.contains(f) <==> a2.contains(f) by {
            vstd::seq_lib::to_multiset_contains(a1, f);
            vstd::seq_lib::to_multiset_contains(a2, f);
        }
        lemma_same_contents_keys(e1, e2);
        lemma_same_contents_keys(a1, a2);
    }
}

/// What a comparison result says: its variant, the content fingerprints it
/// carries, its lists of repeated keys on either side, and its missing,
/// mismatched and unexpected lists.
pub open spec fn outcome_view(r: ProducerFreshness) -> (
    int,
    Seq<(Seq<char>, Seq<u8>)>,
    Seq<FingerprintKey>,
    Seq<FingerprintKey>,
    (Seq<FingerprintView>, Seq<(FingerprintView, FingerprintView)>, Seq<FingerprintView>),
) {
    let tag: int = match r {
        ProducerFreshness::Fresh => 0,
        ProducerFreshness::ContentMissing { .. } => 1,
        ProducerFreshness::ContentMismatch { .. } => 2,
        ProducerFreshness::ContentUnexpected { .. } => 3,
        ProducerFreshness::Invalid { .. } => 4,
        ProducerFreshness::Missing { .. } => 5,
        ProducerFreshness::Mismatch { .. } => 6,
        ProducerFreshness::Unexpected { .. } => 7,
        ProducerFreshness::Mixed { .. } => 8,
    };
    let content: Seq<(Seq<char>, Seq<u8>)> = match r {
        ProducerFreshness::ContentMissing { expected } => seq![expected@],
        ProducerFreshness::ContentMismatch { expected, actual } => seq![expected@, actual@],
        ProducerFreshness::ContentUnexpected { actual } => seq![actual@],
        _ => Seq::empty(),
    };
    let (ed, ad) = match r {
        ProducerFreshness::Invalid { expected_duplicates, actual_duplicates } => (
            pairs_view(expected_duplicates@),
            pairs_view(actual_duplicates@),
        ),
        _ => (Seq::empty(), Seq::empty()),
    };
    (tag, content, ed, ad, freshness_lists(r))
}

proof fn lemma_dup_keys_unique(s: Seq<FingerprintView>, d1: Seq<FingerprintKey>, d2: Seq<FingerprintKey>)
    requires
        dup_keys_ok(s, d1),
        dup_keys_ok(s, d2),
    ensures
        d1 == d2,
{
    assert forall|k: FingerprintKey| d1.contains(k) <==> d2.contains(k) by {
        assert(d1.contains(k) <==> is_dup_key(s, k));
        assert(d2.contains(k) <==> is_dup_key(s, k));
    }
    lemma_keys_sorted_unique(d1, d2);
}

proof fn lemma_mismatch_unique(
    e: Seq<FingerprintView>,
    a: Seq<FingerprintView>,
    mm1: Seq<(FingerprintView, FingerprintView)>,
    mm2: Seq<(FingerprintView, FingerprintView)>,
)
    requires
        mismatch_ok(e, a, mm1),
        mismatch_ok(e, a, mm2),
    ensures
        mm1 == mm2,
{
    let k = |p: (FingerprintView, FingerprintView)| fp_key(p.0);
    assert forall|i: int, j: int| 0 <= i < j < mm1.len() implies key_lt(k(#[trigger] mm1[i]), k(#[trigger] mm1[j])) by {
        assert(mismatch_keys(mm1)[i] == fp_key(mm1[i].0));
        assert(mismatch_keys(mm1)[j] == fp_key(mm1[j].0));
    }
    assert forall|i: int, j: int| 0 <= i < j < mm2.len() implies key_lt(k(#[trigger] mm2[i]), k(#[trigger] mm2[j])) by {
        assert(mismatch_keys(mm2)[i] == fp_key(mm2[i].0));
        assert(mismatch_keys(mm2)[j] == fp_key(mm2[j].0));
    }
    assert forall|p: (FingerprintView, FingerprintView)| mm1.contains(p) <==> mm2.contains(p) by {
        assert(mm1.contains(p) <==> (e.contains(p.0) && a.contains(p.1) && fp_key(p.0) == fp_key(p.1) && p.0 != p.1));
        assert(mm2.contains(p) <==> (e.contains(p.0) && a.contains(p.1) && fp_key(p.0) == fp_key(p.1) && p.0 != p.1));
    }
    lemma_sorted_by_key_unique(mm1, mm2, k);
}

/// A comparison has one result: any two results of comparing the same
/// fingerprints say the same thing.
pub proof fn lemma_compare_outcome_unique(
    e: Seq<FingerprintView>,
    a: Seq<FingerprintView>,
    r1: ProducerFreshness,
    r2: ProducerFreshness,
)
    requires
        compare_outcome_ok(e, a, r1),
        compare_outcome_ok(e, a, r2),
    ensures
        outcome_view(r1) == outcome_view(r2),
{
    if has_dup_key(e) || has_dup_key(a) {
        lemma_dup_keys_unique(e, outcome_view(r1).2, outcome_view(r2).2);
        lemma_dup_keys_unique(a, outcome_view(r1).3, outcome_view(r2).3);
    } else {
        let (m1, mm1, u1) = freshness_lists(r1);
        let (m2, mm2, u2) = freshness_lists(r2);
        lemma_absent_unique(e, a, m1, m2);
        lemma_mismatch_unique(e, a, mm1, mm2);
        lemma_absent_unique(a, e, u1, u2);
    }
}

/// The order of the fingerprints on either side does not change the result:
/// comparing two reorderings of the same fingerprints says the same thing.
pub proof fn lemma_compare_result_order_free(
    e1: Seq<FingerprintView>,
    e2: Seq<FingerprintView>,
    a1: Seq<FingerprintView>,
    a2: Seq<FingerprintView>,
    r1: ProducerFreshness,
    r2: ProducerFreshness,
)
    requires
        e1.to_multiset() == e2.to_multiset(),
        a1.to_multiset() == a2.to_multiset(),
        compare_outcome_ok(e1, a1, r1),
        compare_outcome_ok(e2, a2, r2),
    ensures
        outcome_view(r1) == outcome_view(r2),
{
    lemma_compare_order_free(e1, e2, a1, a2, r1);
    lemma_compare_outcome_unique(e2, a2, r1, r2);
}

} // verus!
