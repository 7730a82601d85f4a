//! The strict and the freshness loading modes agree on manifests that repeat
//! no producer fingerprint key.
use vstd::prelude::*;
use crate::manifest::load::{all_problems, leading_problems, load_stages, loaded_from, producer_input};
use crate::manifest::lower::domains::{
    contextual_domain_problems, domain_entry_problems, domain_lowered, domains_entry_problems, domains_problems,
    flat_domain_problems,
};
use crate::manifest::lower::producer::{
    fp_fields_valid, fp_kept, fp_key_seen, fps_problems, kept_count, kept_views, lemma_fingerprint_modes,
    producer_metadata_lowered, producer_metadata_problems,
};
use crate::manifest::lower::registries::{fps_lowered, registries_problems, registry_entry_problems, registry_lowered};
use crate::manifest::raw::{
    Named, RawManifest, RawMetadataDomainDefinition, RawProducerFingerprint, RawRegistryDefinition,
};
use crate::manifest::spans::ManifestSourceFormat;
use crate::model::producer::{ProducerFingerprint, ProducerMetadata};
use crate::model::{MetadataDomainDefinition, ProjectSchema, RegistryDefinition};

verus! {

/// No valid fingerprint of `fs` repeats the (kind, id) of an earlier one.
pub open spec fn no_repeated_fp(fs: Seq<RawProducerFingerprint>) -> bool {
    forall|i: int| 0 <= i < fs.len() ==> !(fp_fields_valid(fs[i]) && #[trigger] fp_key_seen(fs, i))
}

/// No fingerprint list of the manifest, its registries or its metadata
/// domains repeats a key.
pub open spec fn repeats_no_fingerprint(raw: RawManifest) -> bool {
    &&& no_repeated_fp(raw.producer_fingerprints@)
    &&& forall|i: int| 0 <= i < raw.registries@.len() ==> no_repeated_fp(
        (#[trigger] raw.registries@[i]).value.producer_fingerprints@,
    )
    &&& forall|i: int| 0 <= i < raw.metadata_domains@.len() ==> no_repeated_fp(
        (#[trigger] raw.metadata_domains@[i]).value.producer_fingerprints@,
    )
}

proof fn lemma_kept_count_modes(fs: Seq<RawProducerFingerprint>, n: int)
    requires
        0 <= n <= fs.len(),
        no_repeated_fp(fs),
    ensures
        kept_count(fs, n, true) == kept_count(fs, n, false),
    decreases n,
{
    if n > 0 {
        lemma_kept_count_modes(fs, n - 1);
        assert(!(fp_fields_valid(fs[n - 1]) && fp_key_seen(fs, n - 1)));
    }
}

/// Without repeated keys, both modes report, keep and count the same
/// fingerprints.
proof fn lemma_fps_modes(owner: Seq<char>, fs: Seq<RawProducerFingerprint>)
    requires
        no_repeated_fp(fs),
    ensures
        fps_problems(owner, fs, fs.len() as int, true) == fps_problems(owner, fs, fs.len() as int, false),
        kept_views(fs, fs.len() as int, true) == kept_views(fs, fs.len() as int, false),
        kept_count(fs, fs.len() as int, true) == kept_count(fs, fs.len() as int, false),
        forall|i: int| 0 <= i < fs.len() ==> fp_kept(fs, i, true) == #[trigger] fp_kept(fs, i, false),
{
    lemma_fingerprint_modes(owner, fs, fs.len() as int);
    lemma_kept_count_modes(fs, fs.len() as int);
    assert forall|i: int| 0 <= i < fs.len() implies fp_kept(fs, i, true) == #[trigger] fp_kept(fs, i, false) by {
        assert(!(fp_fields_valid(fs[i]) && fp_key_seen(fs, i)));
    }
}

proof fn lemma_fps_lowered_modes(r: Seq<ProducerFingerprint>, fs: Seq<RawProducerFingerprint>)
    requires
        no_repeated_fp(fs),
    ensures
        fps_lowered(r, fs, true) == fps_lowered(r, fs, false),
{
    lemma_fps_modes(""@, fs);
}

proof fn lemma_registry_modes(es: Seq<Named<RawRegistryDefinition>>, n: int)
    requires
        0 <= n <= es.len(),
        forall|i: int| 0 <= i < es.len() ==> no_repeated_fp((#[trigger] es[i]).value.producer_fingerprints@),
    ensures
        registries_problems(es, n, true) == registries_problems(es, n, false),
        forall|i: int, d: RegistryDefinition| 0 <= i < es.len() ==> registry_lowered(d, (#[trigger] es[i]).value, true)
            == #[trigger] registry_lowered(d, es[i].value, false),
    decreases n,
{
    assert forall|i: int, d: RegistryDefinition| 0 <= i < es.len() implies registry_lowered(d, (#[trigger] es[i]).value, true)
        == #[trigger] registry_lowered(d, es[i].value, false) by {
        lemma_fps_lowered_modes(d.producer_fingerprints@, es[i].value.producer_fingerprints@);
    }
    if n > 0 {
        lemma_registry_modes(es, n - 1);
        let r = es[n - 1].value;
        let owner = crate::manifest::lower::functions::owner_text("registry '"@, es[n - 1].name@);
        lemma_fps_modes(owner, r.producer_fingerprints@);
        assert(registry_entry_problems(es, n - 1, true) == registry_entry_problems(es, n - 1, false));
    }
}

proof fn lemma_domain_modes(es: Seq<Named<RawMetadataDomainDefinition>>, n: int)
    requires
        0 <= n <= es.len(),
        forall|i: int| 0 <= i < es.len() ==> no_repeated_fp((#[trigger] es[i]).value.producer_fingerprints@),
    ensures
        domains_problems(es, n, true) == domains_problems(es, n, false),
        forall|i: int, d: MetadataDomainDefinition| 0 <= i < es.len() ==> domain_lowered(d, (#[trigger] es[i]).value, true)
            == #[trigger] domain_lowered(d, es[i].value, false),
    decreases n,
{
    assert forall|i: int, d: MetadataDomainDefinition| 0 <= i < es.len() implies domain_lowered(d, (#[trigger] es[i]).value, true)
        == #[trigger] domain_lowered(d, es[i].value, false) by {
        match d {
            MetadataDomainDefinition::Flat(f) => {
                lemma_fps_lowered_modes(f.provenance.producer_fingerprints@, es[i].value.producer_fingerprints@);
            },
            MetadataDomainDefinition::Contextual(c) => {
                lemma_fps_lowered_modes(c.provenance.producer_fingerprints@, es[i].value.producer_fingerprints@);
            },
        }
    }
    if n > 0 {
        lemma_domain_modes(es, n - 1);
        let r = es[n - 1].value;
        let owner = "metadata domain '"@ + es[n - 1].name@ + "'"@;
        lemma_fps_modes(owner, r.producer_fingerprints@);
        assert(flat_domain_problems(es[n - 1].name@, r, true) == flat_domain_problems(es[n - 1].name@, r, false));
        assert(contextual_domain_problems(es[n - 1].name@, r, true) == contextual_domain_problems(es[n - 1].name@, r, false));
        assert(domain_entry_problems(es[n - 1].name@, r, true) == domain_entry_problems(es[n - 1].name@, r, false));
        assert(domains_entry_problems(es, n - 1, true) == domains_entry_problems(es, n - 1, false));
    }
}

proof fn lemma_producer_modes(raw: RawManifest)
    requires
        no_repeated_fp(raw.producer_fingerprints@),
    ensures
        producer_metadata_problems(producer_input(raw, true)) == producer_metadata_problems(producer_input(raw, false)),
        forall|m: Option<ProducerMetadata>| #[trigger] producer_metadata_lowered(m, producer_input(raw, true))
            == producer_metadata_lowered(m, producer_input(raw, false)),
{
    let fs = raw.producer_fingerprints@;
    lemma_fps_modes("manifest"@, fs);
}

/// Allowing repeated producer fingerprint keys changes nothing on a manifest
/// that repeats none: the freshness and the strict loader admit the same
/// intermediate schemas, report the same problems, and accept the same
/// loaded schemas.
pub proof fn lemma_loading_modes_agree(
    raw: RawManifest,
    source: Seq<char>,
    format: ManifestSourceFormat,
    t: ProjectSchema,
    tm: ProjectSchema,
    tp: ProjectSchema,
    s: ProjectSchema,
)
    requires
        repeats_no_fingerprint(raw),
    ensures
        load_stages(raw, true, format, t, tm, tp, s) == load_stages(raw, false, format, t, tm, tp, s),
        all_problems(raw, true, source, format, t, tp, s) == all_problems(raw, false, source, format, t, tp, s),
        loaded_from(raw, true, s) == loaded_from(raw, false, s),
{
    lemma_producer_modes(raw);
    lemma_registry_modes(raw.registries@, raw.registries@.len() as int);
    lemma_domain_modes(raw.metadata_domains@, raw.metadata_domains@.len() as int);
    assert(leading_problems(raw, true, source, format) == leading_problems(raw, false, source, format));
}

} // verus!
