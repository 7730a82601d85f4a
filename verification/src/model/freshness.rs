//! Freshness of producer-owned evidence between two schema manifests.
use vstd::prelude::*;
use crate::collections::StrMap;
use crate::model::fingerprint::ContentFingerprint;
use crate::order::{lemma_sorted_index_of, lemma_sorted_unique, texts_sorted};
use crate::model::producer::{
    lemma_compare_fresh_determined, lemma_compare_outcome_unique, lemma_compare_self_fresh, compare_outcome_ok,
    compare_producer_fingerprints, fps_view, has_dup_key, outcome_view, FingerprintKey, FingerprintView,
    ProducerFingerprint, ProducerFreshness, ProducerMetadata,
};
use crate::model::{MetadataDomainDefinition, ProjectSchema};

verus! {

/// Difference between optional manifest-level content fingerprints.
///
/// Kept apart from producer input fingerprints: a content digest describes
/// the complete exported manifest, while producer input fingerprints identify
/// individual host inputs; the two channels may use the same kind and id.
#[derive(Clone, Debug, PartialEq, Eq)]
pub enum ContentFingerprintFreshness {
    Fresh,
    Missing { expected: ContentFingerprint },
    Mismatch { expected: ContentFingerprint, actual: ContentFingerprint },
    Unexpected { actual: ContentFingerprint },
}

/// Deterministic freshness evidence for all producer-owned manifest channels.
///
/// Producer input fingerprints are compared independently at manifest,
/// registry, and metadata-domain scope, keyed by scope name.
#[derive(Debug)]
pub struct SchemaProducerFreshness {
    pub content_fingerprint: ContentFingerprintFreshness,
    pub manifest: ProducerFreshness,
    pub registries: StrMap<ProducerFreshness>,
    pub metadata_domains: StrMap<ProducerFreshness>,
}

/// Every value of a freshness map is `Fresh`.
pub open spec fn all_fresh(m: StrMap<ProducerFreshness>) -> bool {
    forall|i: int| 0 <= i < m.entry_seq().len() ==> (#[trigger] m.entry_seq()[i]).1 is Fresh
}

/// Whether all channels of the evidence are fresh.
pub open spec fn evidence_is_fresh(d: SchemaProducerFreshness) -> bool {
    &&& d.content_fingerprint is Fresh
    &&& d.manifest is Fresh
    &&& all_fresh(d.registries)
    &&& all_fresh(d.metadata_domains)
}

impl SchemaProducerFreshness {
    /// Whether every channel is fresh.
    pub fn is_fresh(&self) -> (r: bool)
        ensures
            r == evidence_is_fresh(*self),
    {
        let content = match self.content_fingerprint {
            ContentFingerprintFreshness::Fresh => true,
            _ => false,
        };
        let manifest = match self.manifest {
            ProducerFreshness::Fresh => true,
            _ => false,
        };
        content && manifest && all_fresh_map(&self.registries) && all_fresh_map(
            &self.metadata_domains,
        )
    }
}

fn all_fresh_map(m: &StrMap<ProducerFreshness>) -> (r: bool)
    ensures
        r == all_fresh(*m),
{
    let mut i: usize = 0;
    while i < m.len()
        invariant
            i <= m.entry_seq().len(),
            forall|j: int| 0 <= j < i ==> (#[trigger] m.entry_seq()[j]).1 is Fresh,
        decreases m.entry_seq().len() - i,
    {
        let fresh = match m.entry_at(i).1 {
            ProducerFreshness::Fresh => true,
            _ => false,
        };
        if !fresh {
            return false;
        }
        i = i + 1;
    }
    true
}

// ---------------------------------------------------------------------------
// Specification of the comparison.

/// Content fingerprint view of optional producer metadata.
pub open spec fn content_view(m: Option<ProducerMetadata>) -> Option<(Seq<char>, Seq<u8>)> {
    match m {
        Some(md) => match md.content_fingerprint {
            Some(f) => Some(f@),
            None => None,
        },
        None => None,
    }
}

/// `r` compares optional content fingerprints `e` and `a`.
pub open spec fn content_outcome_ok(
    e: Option<(Seq<char>, Seq<u8>)>,
    a: Option<(Seq<char>, Seq<u8>)>,
    r: ContentFingerprintFreshness,
) -> bool {
    match (e, a) {
        (None, None) => r is Fresh,
        (Some(x), None) => r matches ContentFingerprintFreshness::Missing { expected } && expected@
            == x,
        (None, Some(y)) => r matches ContentFingerprintFreshness::Unexpected { actual } && actual@
            == y,
        (Some(x), Some(y)) => if x == y {
            r is Fresh
        } else {
            r matches ContentFingerprintFreshness::Mismatch { expected, actual } && expected@ == x
                && actual@ == y
        },
    }
}

/// Manifest-level producer fingerprints of a schema.
pub open spec fn manifest_fps(s: ProjectSchema) -> Seq<FingerprintView> {
    match s.producer_metadata {
        Some(md) => fps_view(md.producer_fingerprints@),
        None => Seq::empty(),
    }
}

/// Producer fingerprints of the registry `name`, empty when there is none.
pub open spec fn registry_fps(s: ProjectSchema, name: Seq<char>) -> Seq<FingerprintView> {
    match s.registries.spec_get(name) {
        Some(r) => fps_view(r.producer_fingerprints@),
        None => Seq::empty(),
    }
}

/// Producer fingerprints of a metadata domain.
pub open spec fn domain_fps_of(d: MetadataDomainDefinition) -> Seq<FingerprintView> {
    match d {
        MetadataDomainDefinition::Flat(f) => fps_view(f.provenance.producer_fingerprints@),
        MetadataDomainDefinition::Contextual(c) => fps_view(c.provenance.producer_fingerprints@),
    }
}

/// Producer fingerprints of the metadata domain `name`, empty when there is none.
pub open spec fn domain_fps(s: ProjectSchema, name: Seq<char>) -> Seq<FingerprintView> {
    match s.metadata_domains.spec_get(name) {
        Some(d) => domain_fps_of(d),
        None => Seq::empty(),
    }
}

/// Registry comparisons: one per registry name of either schema.
pub open spec fn registries_ok(e: ProjectSchema, a: ProjectSchema, m: StrMap<ProducerFreshness>) -> bool {
    &&& texts_sorted(m.keys())
    &&& m.keys().to_set() == e.registries.keys().to_set() + a.registries.keys().to_set()
    &&& forall|k: Seq<char>| #[trigger]
        m.has(k) ==> compare_outcome_ok(registry_fps(e, k), registry_fps(a, k), m.spec_get(k)->0)
}

/// Domain comparisons: one per metadata domain name of either schema.
pub open spec fn domains_ok(e: ProjectSchema, a: ProjectSchema, m: StrMap<ProducerFreshness>) -> bool {
    &&& texts_sorted(m.keys())
    &&& m.keys().to_set() == e.metadata_domains.keys().to_set() + a.metadata_domains.keys().to_set()
    &&& forall|k: Seq<char>| #[trigger]
        m.has(k) ==> compare_outcome_ok(domain_fps(e, k), domain_fps(a, k), m.spec_get(k)->0)
}

/// `d` is the detailed freshness evidence for `expected` against `actual`.
pub open spec fn detailed_ok(e: ProjectSchema, a: ProjectSchema, d: SchemaProducerFreshness) -> bool {
    &&& content_outcome_ok(content_view(e.producer_metadata), content_view(a.producer_metadata), d.content_fingerprint)
    &&& compare_outcome_ok(manifest_fps(e), manifest_fps(a), d.manifest)
    &&& registries_ok(e, a, d.registries)
    &&& domains_ok(e, a, d.metadata_domains)
}

/// The first result in `s` that is not `Fresh`.
pub open spec fn first_stale(s: Seq<(String, ProducerFreshness)>) -> Option<ProducerFreshness>
    decreases s.len(),
{
    if s.len() == 0 {
        None
    } else if !(s[0].1 is Fresh) {
        Some(s[0].1)
    } else {
        first_stale(s.drop_first())
    }
}

/// The content channel as a producer freshness result.
pub open spec fn content_as_producer(c: ContentFingerprintFreshness) -> ProducerFreshness {
    match c {
        ContentFingerprintFreshness::Fresh => ProducerFreshness::Fresh,
        ContentFingerprintFreshness::Missing { expected } => ProducerFreshness::ContentMissing {
            expected,
        },
        ContentFingerprintFreshness::Mismatch { expected, actual } => ProducerFreshness::ContentMismatch {
            expected,
            actual,
        },
        ContentFingerprintFreshness::Unexpected { actual } => ProducerFreshness::ContentUnexpected {
            actual,
        },
    }
}

/// The first non-fresh channel: manifest, registries, domains, then content.
pub open spec fn first_stale_channel(d: SchemaProducerFreshness) -> ProducerFreshness {
    if !(d.manifest is Fresh) {
        d.manifest
    } else {
        match first_stale(d.registries.entry_seq() + d.metadata_domains.entry_seq()) {
            Some(r) => r,
            None => content_as_producer(d.content_fingerprint),
        }
    }
}


// ---------------------------------------------------------------------------
// The comparison.

fn compare_content_fingerprints(
    expected: Option<&ContentFingerprint>,
    actual: Option<&ContentFingerprint>,
) -> (r: ContentFingerprintFreshness)
    ensures
        content_outcome_ok(
            match expected {
                Some(f) => Some(f@),
                None => None,
            },
            match actual {
                Some(f) => Some(f@),
                None => None,
            },
            r,
        ),
{
    match (expected, actual) {
        (None, None) => ContentFingerprintFreshness::Fresh,
        (Some(e), None) => ContentFingerprintFreshness::Missing { expected: e.copy() },
        (None, Some(a)) => ContentFingerprintFreshness::Unexpected { actual: a.copy() },
        (Some(e), Some(a)) => {
            if e.same(a) {
                ContentFingerprintFreshness::Fresh
            } else {
                ContentFingerprintFreshness::Mismatch { expected: e.copy(), actual: a.copy() }
            }
        },
    }
}

fn content_fingerprint_of(metadata: &Option<ProducerMetadata>) -> (r: Option<&ContentFingerprint>)
    ensures
        match r {
            Some(f) => content_view(*metadata) == Some(f@),
            None => content_view(*metadata) is None,
        },
{
    match metadata {
        Some(m) => match &m.content_fingerprint {
            Some(f) => Some(f),
            None => None,
        },
        None => None,
    }
}

fn manifest_fingerprints<'a>(
    metadata: &'a Option<ProducerMetadata>,
    empty: &'a Vec<ProducerFingerprint>,
) -> (r: &'a [ProducerFingerprint])
    requires
        empty@.len() == 0,
    ensures
        fps_view(r@) == match *metadata {
            Some(md) => fps_view(md.producer_fingerprints@),
            None => Seq::<FingerprintView>::empty(),
        },
{
    match metadata {
        Some(m) => m.producer_fingerprints.as_slice(),
        None => {
            assert(fps_view(empty@) =~= Seq::<FingerprintView>::empty());
            empty.as_slice()
        },
    }
}

fn domain_fingerprints(domain: &MetadataDomainDefinition) -> (r: &[ProducerFingerprint])
    ensures
        fps_view(r@) == domain_fps_of(*domain),
{
    match domain {
        MetadataDomainDefinition::Flat(d) => d.provenance.producer_fingerprints.as_slice(),
        MetadataDomainDefinition::Contextual(d) => d.provenance.producer_fingerprints.as_slice(),
    }
}

fn registry_fingerprints<'a>(
    schema: &'a ProjectSchema,
    name: &str,
    empty: &'a Vec<ProducerFingerprint>,
) -> (r: &'a [ProducerFingerprint])
    requires
        empty@.len() == 0,
    ensures
        fps_view(r@) == registry_fps(*schema, name@),
{
    match schema.registries.get(name) {
        Some(reg) => reg.producer_fingerprints.as_slice(),
        None => {
            assert(fps_view(empty@) =~= Seq::<FingerprintView>::empty());
            empty.as_slice()
        },
    }
}

fn named_domain_fingerprints<'a>(
    schema: &'a ProjectSchema,
    name: &str,
    empty: &'a Vec<ProducerFingerprint>,
) -> (r: &'a [ProducerFingerprint])
    requires
        empty@.len() == 0,
    ensures
        fps_view(r@) == domain_fps(*schema, name@),
{
    match schema.metadata_domains.get(name) {
        Some(d) => domain_fingerprints(d),
        None => {
            assert(fps_view(empty@) =~= Seq::<FingerprintView>::empty());
            empty.as_slice()
        },
    }
}

fn compare_registry_fingerprints(expected: &ProjectSchema, actual: &ProjectSchema) -> (r: StrMap<
    ProducerFreshness,
>)
    ensures
        registries_ok(*expected, *actual, r),
{
    let empty: Vec<ProducerFingerprint> = Vec::new();
    let mut out: StrMap<ProducerFreshness> = StrMap::new();
    let ghost ek = expected.registries.keys();
    let ghost ak = actual.registries.keys();
    let n = expected.registries.len();
    let mut i: usize = 0;
    while i < n
        invariant
            n == ek.len(),
            ek == expected.registries.keys(),
            empty@.len() == 0,
            i <= n,
            forall|k: Seq<char>| #[trigger] out.has(k) <==> exists|j: int| 0 <= j < i && ek[j] == k,
            forall|k: Seq<char>| #[trigger]
                out.has(k) ==> compare_outcome_ok(
                    registry_fps(*expected, k),
                    registry_fps(*actual, k),
                    out.spec_get(k)->0,
                ),
        decreases n - i,
    {
        let name = &expected.registries.entry_at(i).0;
        proof {
            assert(ek[i as int] == name@);
        }
        let ef = registry_fingerprints(expected, name.as_str(), &empty);
        let af = registry_fingerprints(actual, name.as_str(), &empty);
        let res = compare_producer_fingerprints(ef, af);
        let ghost old_out = out;
        out.insert(crate::text::copy_string(name), res);
        proof {
            assert forall|k: Seq<char>| #[trigger] out.has(k) <==> (old_out.has(k) || k == name@) by {
                assert(out.keys().to_set().contains(k) == out.keys().contains(k));
                assert(old_out.keys().to_set().contains(k) == old_out.keys().contains(k));
            }
            assert forall|k: Seq<char>| #[trigger] out.has(k) <==> exists|j: int|
                0 <= j < i + 1 && ek[j] == k by {
                if exists|j: int| 0 <= j < i + 1 && ek[j] == k {
                    let j = choose|j: int| 0 <= j < i + 1 && ek[j] == k;
                    if j < i {
                        assert(old_out.has(k));
                    }
                }
                if old_out.has(k) {
                    let j = choose|j: int| 0 <= j < i && ek[j] == k;
                    assert(0 <= j < i + 1 && ek[j] == k);
                }
            }
        }
        i = i + 1;
    }
    let m = actual.registries.len();
    let mut i2: usize = 0;
    while i2 < m
        invariant
            m == ak.len(),
            n == ek.len(),
            ek == expected.registries.keys(),
            ak == actual.registries.keys(),
            empty@.len() == 0,
            i2 <= m,
            forall|k: Seq<char>| #[trigger]
                out.has(k) <==> (ek.contains(k) || exists|j: int| 0 <= j < i2 && ak[j] == k),
            forall|k: Seq<char>| #[trigger]
                out.has(k) ==> compare_outcome_ok(
                    registry_fps(*expected, k),
                    registry_fps(*actual, k),
                    out.spec_get(k)->0,
                ),
        decreases m - i2,
    {
        let name = &actual.registries.entry_at(i2).0;
        proof {
            assert(ak[i2 as int] == name@);
        }
        if !expected.registries.contains_key(name.as_str()) {
            let ef = registry_fingerprints(expected, name.as_str(), &empty);
            let af = registry_fingerprints(actual, name.as_str(), &empty);
            let res = compare_producer_fingerprints(ef, af);
            let ghost old_out = out;
            out.insert(crate::text::copy_string(name), res);
            proof {
                assert forall|k: Seq<char>| #[trigger] out.has(k) <==> (old_out.has(k) || k == name@) by {
                    assert(out.keys().to_set().contains(k) == out.keys().contains(k));
                    assert(old_out.keys().to_set().contains(k) == old_out.keys().contains(k));
                }
            }
        }
        proof {
            assert forall|k: Seq<char>| #[trigger] out.has(k) <==> (ek.contains(k) || exists|j: int|
                0 <= j < i2 + 1 && ak[j] == k) by {
                if exists|j: int| 0 <= j < i2 + 1 && ak[j] == k {
                    let j = choose|j: int| 0 <= j < i2 + 1 && ak[j] == k;
                    if j < i2 {
                        assert(exists|j2: int| 0 <= j2 < i2 && ak[j2] == k);
                    }
                }
                if exists|j: int| 0 <= j < i2 && ak[j] == k {
                    let j = choose|j: int| 0 <= j < i2 && ak[j] == k;
                    assert(0 <= j < i2 + 1 && ak[j] == k);
                }
            }
        }
        i2 = i2 + 1;
    }
    proof {
        assert forall|k: Seq<char>| out.keys().to_set().contains(k) <==> (ek.to_set() + ak.to_set()).contains(
            k,
        ) by {
            assert(out.keys().to_set().contains(k) == out.has(k));
            if ek.contains(k) {
                let j = ek.index_of(k);
                assert(0 <= j < n && ek[j] == k);
            }
            if exists|j: int| 0 <= j < n && ek[j] == k {
                let j = choose|j: int| 0 <= j < n && ek[j] == k;
                assert(ek.contains(k));
            }
            if ak.contains(k) {
                let j = ak.index_of(k);
                assert(0 <= j < m && ak[j] == k);
            }
            if exists|j: int| 0 <= j < m && ak[j] == k {
                let j = choose|j: int| 0 <= j < m && ak[j] == k;
                assert(ak.contains(k));
            }
        }
        assert(out.keys().to_set() =~= ek.to_set() + ak.to_set());
    }
    out.proof_sorted();
    out
}

fn compare_domain_fingerprints(expected: &ProjectSchema, actual: &ProjectSchema) -> (r: StrMap<
    ProducerFreshness,
>)
    ensures
        domains_ok(*expected, *actual, r),
{
    let empty: Vec<ProducerFingerprint> = Vec::new();
    let mut out: StrMap<ProducerFreshness> = StrMap::new();
    let ghost ek = expected.metadata_domains.keys();
    let ghost ak = actual.metadata_domains.keys();
    let n = expected.metadata_domains.len();
    let mut i: usize = 0;
    while i < n
        invariant
            n == ek.len(),
            ek == expected.metadata_domains.keys(),
            empty@.len() == 0,
            i <= n,
            forall|k: Seq<char>| #[trigger] out.has(k) <==> exists|j: int| 0 <= j < i && ek[j] == k,
            forall|k: Seq<char>| #[trigger]
                out.has(k) ==> compare_outcome_ok(
                    domain_fps(*expected, k),
                    domain_fps(*actual, k),
                    out.spec_get(k)->0,
                ),
        decreases n - i,
    {
        let name = &expected.metadata_domains.entry_at(i).0;
        proof {
            assert(ek[i as int] == name@);
        }
        let ef = named_domain_fingerprints(expected, name.as_str(), &empty);
        let af = named_domain_fingerprints(actual, name.as_str(), &empty);
        let res = compare_producer_fingerprints(ef, af);
        let ghost old_out = out;
        out.insert(crate::text::copy_string(name), res);
        proof {
            assert forall|k: Seq<char>| #[trigger] out.has(k) <==> (old_out.has(k) || k == name@) by {
                assert(out.keys().to_set().contains(k) == out.keys().contains(k));
                assert(old_out.keys().to_set().contains(k) == old_out.keys().contains(k));
            }
            assert forall|k: Seq<char>| #[trigger] out.has(k) <==> exists|j: int|
                0 <= j < i + 1 && ek[j] == k by {
                if exists|j: int| 0 <= j < i + 1 && ek[j] == k {
                    let j = choose|j: int| 0 <= j < i + 1 && ek[j] == k;
                    if j < i {
                        assert(old_out.has(k));
                    }
                }
                if old_out.has(k) {
                    let j = choose|j: int| 0 <= j < i && ek[j] == k;
                    assert(0 <= j < i + 1 && ek[j] == k);
                }
            }
        }
        i = i + 1;
    }
    let m = actual.metadata_domains.len();
    let mut i2: usize = 0;
    while i2 < m
        invariant
            m == ak.len(),
            n == ek.len(),
            ek == expected.metadata_domains.keys(),
            ak == actual.metadata_domains.keys(),
            empty@.len() == 0,
            i2 <= m,
            forall|k: Seq<char>| #[trigger]
                out.has(k) <==> (ek.contains(k) || exists|j: int| 0 <= j < i2 && ak[j] == k),
            forall|k: Seq<char>| #[trigger]
                out.has(k) ==> compare_outcome_ok(
                    domain_fps(*expected, k),
                    domain_fps(*actual, k),
                    out.spec_get(k)->0,
                ),
        decreases m - i2,
    {
        let name = &actual.metadata_domains.entry_at(i2).0;
        proof {
            assert(ak[i2 as int] == name@);
        }
        if !expected.metadata_domains.contains_key(name.as_str()) {
            let ef = named_domain_fingerprints(expected, name.as_str(), &empty);
            let af = named_domain_fingerprints(actual, name.as_str(), &empty);
            let res = compare_producer_fingerprints(ef, af);
            let ghost old_out = out;
            out.insert(crate::text::copy_string(name), res);
            proof {
                assert forall|k: Seq<char>| #[trigger] out.has(k) <==> (old_out.has(k) || k == name@) by {
                    assert(out.keys().to_set().contains(k) == out.keys().contains(k));
                    assert(old_out.keys().to_set().contains(k) == old_out.keys().contains(k));
                }
            }
        }
        proof {
            assert forall|k: Seq<char>| #[trigger] out.has(k) <==> (ek.contains(k) || exists|j: int|
                0 <= j < i2 + 1 && ak[j] == k) by {
                if exists|j: int| 0 <= j < i2 + 1 && ak[j] == k {
                    let j = choose|j: int| 0 <= j < i2 + 1 && ak[j] == k;
                    if j < i2 {
                        assert(exists|j2: int| 0 <= j2 < i2 && ak[j2] == k);
                    }
                }
                if exists|j: int| 0 <= j < i2 && ak[j] == k {
                    let j = choose|j: int| 0 <= j < i2 && ak[j] == k;
                    assert(0 <= j < i2 + 1 && ak[j] == k);
                }
            }
        }
        i2 = i2 + 1;
    }
    proof {
        assert forall|k: Seq<char>| out.keys().to_set().contains(k) <==> (ek.to_set() + ak.to_set()).contains(
            k,
        ) by {
            assert(out.keys().to_set().contains(k) == out.has(k));
            if ek.contains(k) {
                let j = ek.index_of(k);
                assert(0 <= j < n && ek[j] == k);
            }
            if exists|j: int| 0 <= j < n && ek[j] == k {
                let j = choose|j: int| 0 <= j < n && ek[j] == k;
                assert(ek.contains(k));
            }
            if ak.contains(k) {
                let j = ak.index_of(k);
                assert(0 <= j < m && ak[j] == k);
            }
            if exists|j: int| 0 <= j < m && ak[j] == k {
                let j = choose|j: int| 0 <= j < m && ak[j] == k;
                assert(ak.contains(k));
            }
        }
        assert(out.keys().to_set() =~= ek.to_set() + ak.to_set());
    }
    out.proof_sorted();
    out
}

/// Compare producer-owned freshness evidence from two manifests. Callers
/// supply both snapshots; nothing is read from the host.
pub fn compare_schema_producer_freshness_detailed(
    expected: &ProjectSchema,
    actual: &ProjectSchema,
) -> (r: SchemaProducerFreshness)
    ensures
        detailed_ok(*expected, *actual, r),
{
    let empty: Vec<ProducerFingerprint> = Vec::new();
    let content_fingerprint = compare_content_fingerprints(
        content_fingerprint_of(&expected.producer_metadata),
        content_fingerprint_of(&actual.producer_metadata),
    );
    let manifest = compare_producer_fingerprints(
        manifest_fingerprints(&expected.producer_metadata, &empty),
        manifest_fingerprints(&actual.producer_metadata, &empty),
    );
    SchemaProducerFreshness {
        content_fingerprint,
        manifest,
        registries: compare_registry_fingerprints(expected, actual),
        metadata_domains: compare_domain_fingerprints(expected, actual),
    }
}

proof fn lemma_first_stale_prefix(s: Seq<(String, ProducerFreshness)>, i: int)
    requires
        0 <= i <= s.len(),
        forall|j: int| 0 <= j < i ==> (#[trigger] s[j]).1 is Fresh,
    ensures
        first_stale(s) == first_stale(s.subrange(i, s.len() as int)),
    decreases i,
{
    if i > 0 {
        lemma_first_stale_prefix(s, i - 1);
        let t = s.subrange(i - 1, s.len() as int);
        assert(t[0] == s[i - 1]);
        assert(t.drop_first() =~= s.subrange(i, s.len() as int));
    } else {
        assert(s.subrange(0, s.len() as int) =~= s);
    }
}

/// The first non-fresh result of `v`, taken out of it.
fn take_first_stale(v: &mut Vec<(String, ProducerFreshness)>) -> (r: Option<ProducerFreshness>)
    ensures
        r == first_stale(old(v)@),
{
    let ghost s = v@;
    let mut i: usize = 0;
    while i < v.len()
        invariant
            v@ == s,
            s == old(v)@,
            i <= s.len(),
            forall|j: int| 0 <= j < i ==> (#[trigger] s[j]).1 is Fresh,
        decreases s.len() - i,
    {
        let fresh = match v[i].1 {
            ProducerFreshness::Fresh => true,
            _ => false,
        };
        if !fresh {
            proof {
                lemma_first_stale_prefix(s, i as int);
                let t = s.subrange(i as int, s.len() as int);
                assert(t[0] == s[i as int]);
                assert(first_stale(t) == Some(s[i as int].1));
            }
            let entry = v.swap_remove(i);
            assert(entry == s[i as int]);
            return Some(entry.1);
        }
        i = i + 1;
    }
    proof {
        lemma_first_stale_prefix(s, i as int);
    }
    None
}

/// The first non-fresh channel of two manifests' freshness evidence, in
/// manifest, registry, metadata-domain, then content order; `Fresh` when
/// every channel is fresh. The detailed comparison keeps all channels.
pub fn compare_schema_producer_freshness(expected: &ProjectSchema, actual: &ProjectSchema) -> (r:
    ProducerFreshness)
    ensures
        exists|d: SchemaProducerFreshness|
            detailed_ok(*expected, *actual, d) && r == first_stale_channel(d),
{
    let evidence = compare_schema_producer_freshness_detailed(expected, actual);
    let ghost d = evidence;
    let fresh = match evidence.manifest {
        ProducerFreshness::Fresh => true,
        _ => false,
    };
    if !fresh {
        assert(detailed_ok(*expected, *actual, d) && evidence.manifest == first_stale_channel(d));
        return evidence.manifest;
    }
    let mut channels = evidence.registries.into_entries();
    let mut domains = evidence.metadata_domains.into_entries();
    channels.append(&mut domains);
    let r = match take_first_stale(&mut channels) {
        Some(p) => p,
        None => match evidence.content_fingerprint {
            ContentFingerprintFreshness::Fresh => ProducerFreshness::Fresh,
            ContentFingerprintFreshness::Missing { expected } => ProducerFreshness::ContentMissing {
                expected,
            },
            ContentFingerprintFreshness::Mismatch { expected, actual } => ProducerFreshness::ContentMismatch {
                expected,
                actual,
            },
            ContentFingerprintFreshness::Unexpected { actual } => ProducerFreshness::ContentUnexpected {
                actual,
            },
        },
    };
    assert(detailed_ok(*expected, *actual, d) && r == first_stale_channel(d));
    r
}


// ---------------------------------------------------------------------------
// Laws.

proof fn lemma_first_stale_none(s: Seq<(String, ProducerFreshness)>)
    ensures
        first_stale(s) is None <==> forall|i: int| 0 <= i < s.len() ==> (#[trigger] s[i]).1 is Fresh,
        first_stale(s) matches Some(x) ==> !(x is Fresh),
    decreases s.len(),
{
    if s.len() > 0 {
        lemma_first_stale_none(s.drop_first());
        if first_stale(s) is None {
            assert forall|i: int| 0 <= i < s.len() implies (#[trigger] s[i]).1 is Fresh by {
                if i > 0 {
                    assert(s.drop_first()[i - 1] == s[i]);
                }
            }
        }
        if forall|i: int| 0 <= i < s.len() ==> (#[trigger] s[i]).1 is Fresh {
            assert(s[0].1 is Fresh);
            assert forall|i: int| 0 <= i < s.drop_first().len() implies (#[trigger] s.drop_first()[i]).1 is Fresh by {
                assert(s.drop_first()[i] == s[i + 1]);
            }
        }
    }
}

/// A freshness map with sorted keys is all fresh exactly when each key's result is.
proof fn lemma_all_fresh_by_key(m: StrMap<ProducerFreshness>)
    requires
        texts_sorted(m.keys()),
    ensures
        all_fresh(m) <==> forall|k: Seq<char>| #[trigger] m.has(k) ==> m.spec_get(k)->0 is Fresh,
{
    if all_fresh(m) {
        assert forall|k: Seq<char>| #[trigger] m.has(k) implies m.spec_get(k)->0 is Fresh by {
            let i = m.keys().index_of(k);
            assert(m.entry_seq()[i].1 is Fresh);
        }
    }
    if forall|k: Seq<char>| #[trigger] m.has(k) ==> m.spec_get(k)->0 is Fresh {
        assert forall|i: int| 0 <= i < m.entry_seq().len() implies (#[trigger] m.entry_seq()[i]).1 is Fresh by {
            lemma_sorted_index_of(m.keys(), i);
            let k = m.keys()[i];
            assert(m.has(k));
        }
    }
}

proof fn lemma_maps_fresh_agree(
    m1: StrMap<ProducerFreshness>,
    m2: StrMap<ProducerFreshness>,
    fe: spec_fn(Seq<char>) -> Seq<FingerprintView>,
    fa: spec_fn(Seq<char>) -> Seq<FingerprintView>,
)
    requires
        texts_sorted(m1.keys()),
        texts_sorted(m2.keys()),
        m1.keys().to_set() == m2.keys().to_set(),
        forall|k: Seq<char>| #[trigger] m1.has(k) ==> compare_outcome_ok(fe(k), fa(k), m1.spec_get(k)->0),
        forall|k: Seq<char>| #[trigger] m2.has(k) ==> compare_outcome_ok(fe(k), fa(k), m2.spec_get(k)->0),
    ensures
        all_fresh(m1) <==> all_fresh(m2),
{
    lemma_all_fresh_by_key(m1);
    lemma_all_fresh_by_key(m2);
    assert forall|k: Seq<char>| m1.has(k) <==> m2.has(k) by {
        assert(m1.keys().to_set().contains(k) == m1.keys().contains(k));
        assert(m2.keys().to_set().contains(k) == m2.keys().contains(k));
    }
    assert forall|k: Seq<char>| #[trigger] m1.has(k) implies (m1.spec_get(k)->0 is Fresh <==> m2.spec_get(k)->0 is Fresh) by {
        lemma_compare_fresh_determined(fe(k), fa(k), m1.spec_get(k)->0, m2.spec_get(k)->0);
    }
}

/// The compatibility result is `Fresh` exactly when the detailed evidence for
/// the same two schemas is fresh in every channel.
pub proof fn lemma_summary_fresh_iff_evidence_fresh(
    e: ProjectSchema,
    a: ProjectSchema,
    d1: SchemaProducerFreshness,
    d2: SchemaProducerFreshness,
)
    requires
        detailed_ok(e, a, d1),
        detailed_ok(e, a, d2),
    ensures
        evidence_is_fresh(d1) <==> first_stale_channel(d2) is Fresh,
{
    lemma_compare_fresh_determined(manifest_fps(e), manifest_fps(a), d1.manifest, d2.manifest);
    lemma_maps_fresh_agree(
        d1.registries,
        d2.registries,
        |k: Seq<char>| registry_fps(e, k),
        |k: Seq<char>| registry_fps(a, k),
    );
    lemma_maps_fresh_agree(
        d1.metadata_domains,
        d2.metadata_domains,
        |k: Seq<char>| domain_fps(e, k),
        |k: Seq<char>| domain_fps(a, k),
    );
    let s = d2.registries.entry_seq() + d2.metadata_domains.entry_seq();
    lemma_first_stale_none(s);
    assert(d1.content_fingerprint is Fresh <==> d2.content_fingerprint is Fresh);
    assert(content_as_producer(d2.content_fingerprint) is Fresh <==> d2.content_fingerprint is Fresh);
    let r = d2.registries.entry_seq();
    let m = d2.metadata_domains.entry_seq();
    if all_fresh(d2.registries) && all_fresh(d2.metadata_domains) {
        assert forall|i: int| 0 <= i < s.len() implies (#[trigger] s[i]).1 is Fresh by {
            if i < r.len() {
                assert(s[i] == r[i]);
            } else {
                assert(s[i] == m[i - r.len()]);
            }
        }
    }
    if first_stale(s) is None {
        assert forall|i: int| 0 <= i < r.len() implies (#[trigger] r[i]).1 is Fresh by {
            assert(s[i] == r[i]);
        }
        assert forall|i: int| 0 <= i < m.len() implies (#[trigger] m[i]).1 is Fresh by {
            assert(s[i + r.len()] == m[i]);
        }
    }
}


/// A schema compared with itself is fresh in every channel, as long as no
/// channel repeats a producer fingerprint key.
pub proof fn lemma_schema_self_fresh(s: ProjectSchema, d: SchemaProducerFreshness)
    requires
        detailed_ok(s, s, d),
        !has_dup_key(manifest_fps(s)),
        forall|k: Seq<char>| !has_dup_key(#[trigger] registry_fps(s, k)),
        forall|k: Seq<char>| !has_dup_key(#[trigger] domain_fps(s, k)),
    ensures
        evidence_is_fresh(d),
{
    lemma_compare_self_fresh(manifest_fps(s), d.manifest);
    lemma_all_fresh_by_key(d.registries);
    lemma_all_fresh_by_key(d.metadata_domains);
    assert forall|k: Seq<char>| #[trigger] d.registries.has(k) implies d.registries.spec_get(k)->0 is Fresh by {
        lemma_compare_self_fresh(registry_fps(s, k), d.registries.spec_get(k)->0);
    }
    assert forall|k: Seq<char>| #[trigger] d.metadata_domains.has(k) implies d.metadata_domains.spec_get(k)->0
        is Fresh by {
        lemma_compare_self_fresh(domain_fps(s, k), d.metadata_domains.spec_get(k)->0);
    }
}


/// Freshness depends on the stored evidence alone: two pairs of schemas that
/// agree on the producer metadata and on the names and producer fingerprints
/// of their registries and metadata domains compare alike.
pub proof fn lemma_freshness_by_evidence(
    e: ProjectSchema,
    a: ProjectSchema,
    e2: ProjectSchema,
    a2: ProjectSchema,
    d: SchemaProducerFreshness,
)
    requires
        e2.producer_metadata == e.producer_metadata,
        a2.producer_metadata == a.producer_metadata,
        e2.registries.keys().to_set() == e.registries.keys().to_set(),
        a2.registries.keys().to_set() == a.registries.keys().to_set(),
        e2.metadata_domains.keys().to_set() == e.metadata_domains.keys().to_set(),
        a2.metadata_domains.keys().to_set() == a.metadata_domains.keys().to_set(),
        forall|k: Seq<char>| registry_fps(e2, k) == registry_fps(e, k) && registry_fps(a2, k) == registry_fps(a, k),
        forall|k: Seq<char>| domain_fps(e2, k) == domain_fps(e, k) && domain_fps(a2, k) == domain_fps(a, k),
        detailed_ok(e, a, d),
    ensures
        detailed_ok(e2, a2, d),
{
    assert forall|k: Seq<char>| #[trigger] d.registries.has(k) implies compare_outcome_ok(registry_fps(e2, k),
        registry_fps(a2, k), d.registries.spec_get(k)->0) by {
        assert(registry_fps(e2, k) == registry_fps(e, k) && registry_fps(a2, k) == registry_fps(a, k));
    }
    assert forall|k: Seq<char>| #[trigger] d.metadata_domains.has(k) implies compare_outcome_ok(domain_fps(e2, k),
        domain_fps(a2, k), d.metadata_domains.spec_get(k)->0) by {
        assert(domain_fps(e2, k) == domain_fps(e, k) && domain_fps(a2, k) == domain_fps(a, k));
    }
}

/// What a content comparison says: its variant and the fingerprints it carries.
pub open spec fn content_freshness_view(c: ContentFingerprintFreshness) -> (int, Seq<(Seq<char>, Seq<u8>)>) {
    match c {
        ContentFingerprintFreshness::Fresh => (0, Seq::empty()),
        ContentFingerprintFreshness::Missing { expected } => (1, seq![expected@]),
        ContentFingerprintFreshness::Mismatch { expected, actual } => (2, seq![expected@, actual@]),
        ContentFingerprintFreshness::Unexpected { actual } => (3, seq![actual@]),
    }
}

/// A map of comparison results: each scope name with what its result says.
pub open spec fn freshness_map_view(m: StrMap<ProducerFreshness>) -> Seq<
    (
        Seq<char>,
        (
            int,
            Seq<(Seq<char>, Seq<u8>)>,
            Seq<FingerprintKey>,
            Seq<FingerprintKey>,
            (Seq<FingerprintView>, Seq<(FingerprintView, FingerprintView)>, Seq<FingerprintView>),
        ),
    ),
> {
    m.entry_seq().map_values(|p: (String, ProducerFreshness)| (p.0@, outcome_view(p.1)))
}

/// What detailed freshness evidence says, channel by channel.
pub open spec fn detailed_view(d: SchemaProducerFreshness) -> (
    (int, Seq<(Seq<char>, Seq<u8>)>),
    (
        int,
        Seq<(Seq<char>, Seq<u8>)>,
        Seq<FingerprintKey>,
        Seq<FingerprintKey>,
        (Seq<FingerprintView>, Seq<(FingerprintView, FingerprintView)>, Seq<FingerprintView>),
    ),
    Seq<
        (
            Seq<char>,
            (
                int,
                Seq<(Seq<char>, Seq<u8>)>,
                Seq<FingerprintKey>,
                Seq<FingerprintKey>,
                (Seq<FingerprintView>, Seq<(FingerprintView, FingerprintView)>, Seq<FingerprintView>),
            ),
        ),
    >,
    Seq<
        (
            Seq<char>,
            (
                int,
                Seq<(Seq<char>, Seq<u8>)>,
                Seq<FingerprintKey>,
                Seq<FingerprintKey>,
                (Seq<FingerprintView>, Seq<(FingerprintView, FingerprintView)>, Seq<FingerprintView>),
            ),
        ),
    >,
) {
    (
        content_freshness_view(d.content_fingerprint),
        outcome_view(d.manifest),
        freshness_map_view(d.registries),
        freshness_map_view(d.metadata_domains),
    )
}

proof fn lemma_freshness_maps_agree(
    m1: StrMap<ProducerFreshness>,
    m2: StrMap<ProducerFreshness>,
    fe: spec_fn(Seq<char>) -> Seq<FingerprintView>,
    fa: spec_fn(Seq<char>) -> Seq<FingerprintView>,
)
    requires
        texts_sorted(m1.keys()),
        texts_sorted(m2.keys()),
        m1.keys().to_set() == m2.keys().to_set(),
        forall|k: Seq<char>| #[trigger] m1.has(k) ==> compare_outcome_ok(fe(k), fa(k), m1.spec_get(k)->0),
        forall|k: Seq<char>| #[trigger] m2.has(k) ==> compare_outcome_ok(fe(k), fa(k), m2.spec_get(k)->0),
    ensures
        freshness_map_view(m1) == freshness_map_view(m2),
{
    lemma_sorted_unique(m1.keys(), m2.keys());
    let v1 = freshness_map_view(m1);
    let v2 = freshness_map_view(m2);
    assert forall|i: int| 0 <= i < v1.len() implies v1[i] == v2[i] by {
        let k = m1.keys()[i];
        assert(k == m1.entry_seq()[i].0@);
        assert(k == m2.keys()[i]);
        assert(k == m2.entry_seq()[i].0@);
        lemma_sorted_index_of(m1.keys(), i);
        lemma_sorted_index_of(m2.keys(), i);
        assert(m1.has(k));
        assert(m2.has(k));
        assert(m1.spec_get(k)->0 == m1.entry_seq()[i].1);
        assert(m2.spec_get(k)->0 == m2.entry_seq()[i].1);
        lemma_compare_outcome_unique(fe(k), fa(k), m1.entry_seq()[i].1, m2.entry_seq()[i].1);
    }
    assert(v1 =~= v2);
}

/// The detailed comparison has one result: any two evidence records for the
/// same pair of schemas say the same thing on every channel.
pub proof fn lemma_detailed_unique(
    e: ProjectSchema,
    a: ProjectSchema,
    d1: SchemaProducerFreshness,
    d2: SchemaProducerFreshness,
)
    requires
        detailed_ok(e, a, d1),
        detailed_ok(e, a, d2),
    ensures
        detailed_view(d1) == detailed_view(d2),
{
    lemma_compare_outcome_unique(manifest_fps(e), manifest_fps(a), d1.manifest, d2.manifest);
    lemma_freshness_maps_agree(d1.registries, d2.registries, |k: Seq<char>| registry_fps(e, k),
        |k: Seq<char>| registry_fps(a, k));
    lemma_freshness_maps_agree(d1.metadata_domains, d2.metadata_domains, |k: Seq<char>| domain_fps(e, k),
        |k: Seq<char>| domain_fps(a, k));
}

/// Freshness depends on the stored evidence alone, result for result: two
/// pairs of schemas that agree on the producer metadata and on the names and
/// producer fingerprints of their registries and metadata domains get
/// evidence that says the same thing.
pub proof fn lemma_freshness_result_by_evidence(
    e: ProjectSchema,
    a: ProjectSchema,
    e2: ProjectSchema,
    a2: ProjectSchema,
    d: SchemaProducerFreshness,
    d2: SchemaProducerFreshness,
)
    requires
        e2.producer_metadata == e.producer_metadata,
        a2.producer_metadata == a.producer_metadata,
        e2.registries.keys().to_set() == e.registries.keys().to_set(),
        a2.registries.keys().to_set() == a.registries.keys().to_set(),
        e2.metadata_domains.keys().to_set() == e.metadata_domains.keys().to_set(),
        a2.metadata_domains.keys().to_set() == a.metadata_domains.keys().to_set(),
        forall|k: Seq<char>| registry_fps(e2, k) == registry_fps(e, k) && registry_fps(a2, k) == registry_fps(a, k),
        forall|k: Seq<char>| domain_fps(e2, k) == domain_fps(e, k) && domain_fps(a2, k) == domain_fps(a, k),
        detailed_ok(e, a, d),
        detailed_ok(e2, a2, d2),
    ensures
        detailed_view(d) == detailed_view(d2),
{
    lemma_freshness_by_evidence(e, a, e2, a2, d);
    lemma_detailed_unique(e2, a2, d, d2);
}

} // verus!
