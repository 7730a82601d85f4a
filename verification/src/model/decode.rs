//! The canonical encoding can be read back: equal encodings come from
//! schemas that agree on the content the encoding writes.
use vstd::prelude::*;
use vstd::utf8::{encode_utf8, encode_utf8_decode_utf8};
use crate::collections::{StrMap, StrSet};
use crate::model::{
    SchemaPresentationProjectorDefinition, PresentationAffordanceFieldDefinition, PresentationAffordanceOutputDefinition, PresentationLabelArgDefinition,
    PresentationLabelDefinition, ProjectionInput, ProjectionQueryDefinition, SchemaProjectionInputSource, SchemaProjectionSelector, MetadataOccurrence, PresentationAffordanceFieldSource, ProjectionInputRef, ProjectionOutputTarget,
    AvailabilityReasonArgBinding, ConditionAvailabilityReasonMapping, ConditionDefinition, ConditionReturnType,
    SchemaLiteralValue, ContextualMetadataDomain, MetadataDomainDefinition, MetadataContextSelector, MissingMetadataContextPolicy, ProjectionQueryFunctionDefinition, AvailabilityReasonDefinition, EffectDefinition, MarkupDefinition, MetadataDefinition, EffectMode, EffectModeSet, MetadataTarget, MetadataTargetSet, ParameterDefinition, ProjectSchema,
    RegistryDefinition, SchemaTypeDefinition, SpeakerDefinition, TypeRefView,
};
use crate::model::canonical::{
    label_arg_entry_item, label_bytes, option_label_bytes, output_field_entry_item, output_bytes, output_entry_item,
    outputs_bytes, input_item, inputs_bytes, input_ref_item, input_refs_bytes, query_entry_item, queries_bytes,
    input_source_bytes, projection_selector_bytes, string_item, field_source_bytes, input_ref_bytes, occurrence_bytes, output_target_bytes,
    arg_binding_bytes, arg_binding_item, condition_returns_bytes, literal_bytes, reason_mapping_bytes,
    bool_bytes, context_selector_bytes, context_values_item, domain_bytes, max_calls_bytes, missing_policy_bytes, effect_mode_item, effect_mode_text, effect_modes_bytes, metadata_target_item, metadata_target_text,
    metadata_targets_bytes, param_item, params_bytes, chars_item, concat_map, entry_bytes, field_bool_bytes, type_ref_bytes, field_bytes, field_option_string_bytes, field_string_bytes, field_u32_bytes,
    header_bytes, len_bytes, map_section_bytes, opt_text, registry_entry_item, schema_bytes, section_bytes,
    speaker_entry_item, type_entry_item, condition_entry_item, reason_entry_item, effect_entry_item,
    domain_entry_item, metadata_entry_item, query_function_entry_item, projector_entry_item, markup_entry_item, option_string_bytes, str_bytes, string_set_bytes, u32_bytes,
    u64_bytes,
};

verus! {

/// The UTF-8 encoding of `s` is shorter than 2^64 bytes, so its length fits
/// the 8-byte length prefix.
pub open spec fn fits(s: Seq<char>) -> bool {
    encode_utf8(s).len() < 0x1_0000_0000_0000_0000
}

proof fn lemma_u64_bytes_injective(a: u64, b: u64)
    requires
        u64_bytes(a) == u64_bytes(b),
    ensures
        a == b,
{
    reveal(u64_bytes);
    let x = u64_bytes(a);
    let y = u64_bytes(b);
    assert(x[0] == y[0] && x[1] == y[1] && x[2] == y[2] && x[3] == y[3]);
    assert(x[4] == y[4] && x[5] == y[5] && x[6] == y[6] && x[7] == y[7]);
    assert(((a % 0x100) as u8 == (b % 0x100) as u8 && ((a / 0x100) % 0x100) as u8 == ((b / 0x100) % 0x100) as u8
        && ((a / 0x1_0000) % 0x100) as u8 == ((b / 0x1_0000) % 0x100) as u8
        && ((a / 0x100_0000) % 0x100) as u8 == ((b / 0x100_0000) % 0x100) as u8
        && ((a / 0x1_0000_0000) % 0x100) as u8 == ((b / 0x1_0000_0000) % 0x100) as u8
        && ((a / 0x100_0000_0000) % 0x100) as u8 == ((b / 0x100_0000_0000) % 0x100) as u8
        && ((a / 0x1_0000_0000_0000) % 0x100) as u8 == ((b / 0x1_0000_0000_0000) % 0x100) as u8
        && ((a / 0x100_0000_0000_0000) % 0x100) as u8 == ((b / 0x100_0000_0000_0000) % 0x100) as u8) ==> a == b)
        by (bit_vector);
}

proof fn lemma_u32_bytes_injective(a: u32, b: u32)
    requires
        u32_bytes(a) == u32_bytes(b),
    ensures
        a == b,
{
    reveal(u32_bytes);
    let x = u32_bytes(a);
    let y = u32_bytes(b);
    assert(x[0] == y[0] && x[1] == y[1] && x[2] == y[2] && x[3] == y[3]);
    assert(((a % 0x100) as u8 == (b % 0x100) as u8 && ((a / 0x100) % 0x100) as u8 == ((b / 0x100) % 0x100) as u8
        && ((a / 0x1_0000) % 0x100) as u8 == ((b / 0x1_0000) % 0x100) as u8
        && ((a / 0x100_0000) % 0x100) as u8 == ((b / 0x100_0000) % 0x100) as u8) ==> a == b) by (bit_vector);
}

/// Splitting a sequence at a fixed length.
proof fn lemma_split_at<T>(x1: Seq<T>, r1: Seq<T>, x2: Seq<T>, r2: Seq<T>)
    requires
        x1 + r1 == x2 + r2,
        x1.len() == x2.len(),
    ensures
        x1 == x2,
        r1 == r2,
{
    let s = x1 + r1;
    assert(x1 =~= s.subrange(0, x1.len() as int));
    assert(x2 =~= (x2 + r2).subrange(0, x2.len() as int));
    assert(r1 =~= s.subrange(x1.len() as int, s.len() as int));
    assert(r2 =~= (x2 + r2).subrange(x2.len() as int, (x2 + r2).len() as int));
}

/// A length prefix is read back exactly.
pub proof fn lemma_len_prefix(n1: nat, n2: nat, r1: Seq<u8>, r2: Seq<u8>)
    requires
        n1 < 0x1_0000_0000_0000_0000,
        n2 < 0x1_0000_0000_0000_0000,
        len_bytes(n1) + r1 == len_bytes(n2) + r2,
    ensures
        n1 == n2,
        r1 == r2,
{
    reveal(len_bytes);
    reveal(u64_bytes);
    lemma_split_at(len_bytes(n1), r1, len_bytes(n2), r2);
    lemma_u64_bytes_injective(n1 as u64, n2 as u64);
}

/// A `u32` field value is read back exactly.
pub proof fn lemma_u32_prefix(a: u32, b: u32, r1: Seq<u8>, r2: Seq<u8>)
    requires
        u32_bytes(a) + r1 == u32_bytes(b) + r2,
    ensures
        a == b,
        r1 == r2,
{
    reveal(u32_bytes);
    lemma_split_at(u32_bytes(a), r1, u32_bytes(b), r2);
    lemma_u32_bytes_injective(a, b);
}

/// An encoded string is read back exactly, and so is what follows it.
pub proof fn lemma_str_prefix(a: Seq<char>, b: Seq<char>, r1: Seq<u8>, r2: Seq<u8>)
    requires
        fits(a),
        fits(b),
        str_bytes(a) + r1 == str_bytes(b) + r2,
    ensures
        a == b,
        r1 == r2,
{
    reveal(str_bytes);
    let ea = encode_utf8(a);
    let eb = encode_utf8(b);
    assert(str_bytes(a) + r1 == len_bytes(ea.len()) + (ea + r1));
    assert(str_bytes(b) + r2 == len_bytes(eb.len()) + (eb + r2));
    lemma_len_prefix(ea.len(), eb.len(), ea + r1, eb + r2);
    lemma_split_at(ea, r1, eb, r2);
    encode_utf8_decode_utf8(a);
    encode_utf8_decode_utf8(b);
}

/// A known prefix is dropped.
pub proof fn lemma_same_prefix(x: Seq<u8>, r1: Seq<u8>, r2: Seq<u8>)
    requires
        x + r1 == x + r2,
    ensures
        r1 == r2,
{
    lemma_split_at(x, r1, x, r2);
}

/// `concat_map` read from the front.
pub proof fn lemma_concat_map_front<T>(s: Seq<T>, f: spec_fn(T) -> Seq<u8>)
    requires
        s.len() > 0,
    ensures
        concat_map(s, f) == f(s[0]) + concat_map(s.drop_first(), f),
    decreases s.len(),
{
    if s.len() == 1 {
        assert(s.drop_last() =~= Seq::<T>::empty());
        assert(s.drop_first() =~= Seq::<T>::empty());
        assert(concat_map(s.drop_first(), f) == Seq::<u8>::empty());
        assert(concat_map(s, f) =~= f(s[0]));
    } else {
        lemma_concat_map_front(s.drop_last(), f);
        assert(s.drop_last().drop_first() =~= s.drop_first().drop_last());
        assert(s.drop_first().last() == s.last());
        assert(s.drop_last()[0] == s[0]);
        assert(concat_map(s.drop_first(), f) == concat_map(s.drop_first().drop_last(), f) + f(s.drop_first().last()));
    }
}

/// UTF-8 spends at most four bytes on a character.
pub proof fn lemma_utf8_len(s: Seq<char>)
    ensures
        encode_utf8(s).len() <= 4 * s.len(),
    decreases s.len(),
{
    if s.len() > 0 {
        lemma_utf8_len(s.drop_first());
    }
}

/// A text of fewer than 2^62 characters fits the length prefix.
pub proof fn lemma_short_fits(s: Seq<char>)
    requires
        s.len() < 0x4000_0000_0000_0000,
    ensures
        fits(s),
{
    lemma_utf8_len(s);
}

/// Every text of `s` fits the length prefix.
pub open spec fn all_fit(s: Seq<Seq<char>>) -> bool {
    forall|i: int| 0 <= i < s.len() ==> fits(#[trigger] s[i])
}

/// A counted list of texts is read back exactly.
pub proof fn lemma_strings_prefix(s1: Seq<Seq<char>>, s2: Seq<Seq<char>>, r1: Seq<u8>, r2: Seq<u8>)
    requires
        s1.len() == s2.len(),
        all_fit(s1),
        all_fit(s2),
        concat_map(s1, chars_item()) + r1 == concat_map(s2, chars_item()) + r2,
    ensures
        s1 == s2,
        r1 == r2,
    decreases s1.len(),
{
    if s1.len() == 0 {
        assert(s1 =~= s2);
    } else {
        lemma_concat_map_front(s1, chars_item());
        lemma_concat_map_front(s2, chars_item());
        let t1 = concat_map(s1.drop_first(), chars_item()) + r1;
        let t2 = concat_map(s2.drop_first(), chars_item()) + r2;
        assert(str_bytes(s1[0]) + t1 == concat_map(s1, chars_item()) + r1);
        assert(str_bytes(s2[0]) + t2 == concat_map(s2, chars_item()) + r2);
        assert(fits(s1[0]) && fits(s2[0]));
        lemma_str_prefix(s1[0], s2[0], t1, t2);
        assert(all_fit(s1.drop_first())) by {
            assert forall|i: int| 0 <= i < s1.drop_first().len() implies fits(#[trigger] s1.drop_first()[i]) by {
                assert(s1.drop_first()[i] == s1[i + 1]);
            }
        }
        assert(all_fit(s2.drop_first())) by {
            assert forall|i: int| 0 <= i < s2.drop_first().len() implies fits(#[trigger] s2.drop_first()[i]) by {
                assert(s2.drop_first()[i] == s2[i + 1]);
            }
        }
        lemma_strings_prefix(s1.drop_first(), s2.drop_first(), r1, r2);
        assert(s1 =~= seq![s1[0]] + s1.drop_first());
        assert(s2 =~= seq![s2[0]] + s2.drop_first());
    }
}

/// A string set fits the encoding: its texts and its size.
pub open spec fn set_fits(set: StrSet) -> bool {
    all_fit(set.elems()) && set.elems().len() < 0x1_0000_0000_0000_0000
}

/// A named string set is read back exactly.
pub proof fn lemma_string_set_prefix(name: Seq<char>, a: StrSet, b: StrSet, r1: Seq<u8>, r2: Seq<u8>)
    requires
        set_fits(a),
        set_fits(b),
        string_set_bytes(name, a) + r1 == string_set_bytes(name, b) + r2,
    ensures
        a.elems() == b.elems(),
        r1 == r2,
{
    reveal(string_set_bytes);
    let ca = concat_map(a.elems(), chars_item());
    let cb = concat_map(b.elems(), chars_item());
    assert(string_set_bytes(name, a) + r1 == field_bytes(name) + (len_bytes(a.elems().len()) + (ca + r1)));
    assert(string_set_bytes(name, b) + r2 == field_bytes(name) + (len_bytes(b.elems().len()) + (cb + r2)));
    lemma_same_prefix(field_bytes(name), len_bytes(a.elems().len()) + (ca + r1), len_bytes(b.elems().len()) + (cb + r2));
    lemma_len_prefix(a.elems().len(), b.elems().len(), ca + r1, cb + r2);
    lemma_strings_prefix(a.elems(), b.elems(), r1, r2);
}

/// An optional string is read back exactly.
pub proof fn lemma_option_string_prefix(
    o1: Option<Seq<char>>,
    o2: Option<Seq<char>>,
    r1: Seq<u8>,
    r2: Seq<u8>,
)
    requires
        o1 matches Some(v) ==> fits(v),
        o2 matches Some(v) ==> fits(v),
        option_string_bytes(o1) + r1 == option_string_bytes(o2) + r2,
    ensures
        o1 == o2,
        r1 == r2,
{
    reveal(option_string_bytes);
    reveal_strlit("some");
    reveal_strlit("none");
    lemma_short_fits("some"@);
    lemma_short_fits("none"@);
    let t1 = match o1 {
        Some(v) => str_bytes(v) + r1,
        None => r1,
    };
    let t2 = match o2 {
        Some(v) => str_bytes(v) + r2,
        None => r2,
    };
    let tag1 = if o1 is Some { "some"@ } else { "none"@ };
    let tag2 = if o2 is Some { "some"@ } else { "none"@ };
    assert(option_string_bytes(o1) + r1 == str_bytes(tag1) + t1);
    assert(option_string_bytes(o2) + r2 == str_bytes(tag2) + t2);
    lemma_str_prefix(tag1, tag2, t1, t2);
    if o1 is Some {
        assert(tag1[0] == 's');
        assert(o2 is Some);
        lemma_str_prefix(o1->0, o2->0, r1, r2);
    } else {
        assert(tag1[0] == 'n');
        assert(o2 is None);
    }
}

/// Items encoded by `f` are read back up to `view`: an item's encoding,
/// followed by anything, determines the item's view and what follows.
pub open spec fn prefix_free<T, V>(f: spec_fn(T) -> Seq<u8>, view: spec_fn(T) -> V, ok: spec_fn(T) -> bool) -> bool {
    forall|x: T, y: T, r1: Seq<u8>, r2: Seq<u8>|
        ok(x) && ok(y) && #[trigger] (f(x) + r1) == #[trigger] (f(y) + r2) ==> view(x) == view(y) && r1 == r2
}

/// A list of prefix-free items of known length is read back exactly.
pub proof fn lemma_items_prefix<T, V>(
    s1: Seq<T>,
    s2: Seq<T>,
    f: spec_fn(T) -> Seq<u8>,
    view: spec_fn(T) -> V,
    ok: spec_fn(T) -> bool,
    r1: Seq<u8>,
    r2: Seq<u8>,
)
    requires
        prefix_free(f, view, ok),
        s1.len() == s2.len(),
        forall|i: int| 0 <= i < s1.len() ==> ok(#[trigger] s1[i]),
        forall|i: int| 0 <= i < s2.len() ==> ok(#[trigger] s2[i]),
        concat_map(s1, f) + r1 == concat_map(s2, f) + r2,
    ensures
        s1.map_values(view) == s2.map_values(view),
        r1 == r2,
    decreases s1.len(),
{
    if s1.len() == 0 {
        assert(s1.map_values(view) =~= s2.map_values(view));
    } else {
        lemma_concat_map_front(s1, f);
        lemma_concat_map_front(s2, f);
        let t1 = concat_map(s1.drop_first(), f) + r1;
        let t2 = concat_map(s2.drop_first(), f) + r2;
        assert(f(s1[0]) + t1 == concat_map(s1, f) + r1);
        assert(f(s2[0]) + t2 == concat_map(s2, f) + r2);
        assert(ok(s1[0]) && ok(s2[0]));
        assert(view(s1[0]) == view(s2[0]) && t1 == t2);
        assert forall|i: int| 0 <= i < s1.drop_first().len() implies ok(#[trigger] s1.drop_first()[i]) by {
            assert(s1.drop_first()[i] == s1[i + 1]);
        }
        assert forall|i: int| 0 <= i < s2.drop_first().len() implies ok(#[trigger] s2.drop_first()[i]) by {
            assert(s2.drop_first()[i] == s2[i + 1]);
        }
        lemma_items_prefix(s1.drop_first(), s2.drop_first(), f, view, ok, r1, r2);
        assert(s1.map_values(view) =~= seq![view(s1[0])] + s1.drop_first().map_values(view));
        assert(s2.map_values(view) =~= seq![view(s2[0])] + s2.drop_first().map_values(view));
    }
}

/// A map section of prefix-free entries is read back exactly: the entries'
/// views in order, and what follows.
pub proof fn lemma_section_prefix<T, V>(
    name: Seq<char>,
    m1: StrMap<T>,
    m2: StrMap<T>,
    f: spec_fn((String, T)) -> Seq<u8>,
    view: spec_fn((String, T)) -> V,
    ok: spec_fn((String, T)) -> bool,
    r1: Seq<u8>,
    r2: Seq<u8>,
)
    requires
        prefix_free(f, view, ok),
        m1.entry_seq().len() < 0x1_0000_0000_0000_0000,
        m2.entry_seq().len() < 0x1_0000_0000_0000_0000,
        forall|i: int| 0 <= i < m1.entry_seq().len() ==> ok(#[trigger] m1.entry_seq()[i]),
        forall|i: int| 0 <= i < m2.entry_seq().len() ==> ok(#[trigger] m2.entry_seq()[i]),
        map_section_bytes(name, m1, f) + r1 == map_section_bytes(name, m2, f) + r2,
    ensures
        m1.entry_seq().map_values(view) == m2.entry_seq().map_values(view),
        r1 == r2,
{
    reveal(section_bytes);
    let s1 = m1.entry_seq();
    let s2 = m2.entry_seq();
    let c1 = concat_map(s1, f) + r1;
    let c2 = concat_map(s2, f) + r2;
    let head = str_bytes("section"@) + str_bytes(name);
    assert(map_section_bytes(name, m1, f) + r1 == head + (len_bytes(s1.len()) + c1));
    assert(map_section_bytes(name, m2, f) + r2 == head + (len_bytes(s2.len()) + c2));
    lemma_same_prefix(head, len_bytes(s1.len()) + c1, len_bytes(s2.len()) + c2);
    lemma_len_prefix(s1.len(), s2.len(), c1, c2);
    lemma_items_prefix(s1, s2, f, view, ok, r1, r2);
}

/// An entry key is read back exactly.
pub proof fn lemma_entry_prefix(k1: Seq<char>, k2: Seq<char>, r1: Seq<u8>, r2: Seq<u8>)
    requires
        fits(k1),
        fits(k2),
        entry_bytes(k1) + r1 == entry_bytes(k2) + r2,
    ensures
        k1 == k2,
        r1 == r2,
{
    reveal(entry_bytes);
    let t1 = str_bytes(k1) + r1;
    let t2 = str_bytes(k2) + r2;
    assert(entry_bytes(k1) + r1 == str_bytes("entry"@) + t1);
    assert(entry_bytes(k2) + r2 == str_bytes("entry"@) + t2);
    lemma_same_prefix(str_bytes("entry"@), t1, t2);
    lemma_str_prefix(k1, k2, r1, r2);
}

// ---------------------------------------------------------------------------
// The leading sections: version, types, registries, speakers.

/// What the encoding writes of a speaker entry: its name and display name.
pub open spec fn speaker_view() -> spec_fn((String, SpeakerDefinition)) -> (Seq<char>, Option<Seq<char>>) {
    |e: (String, SpeakerDefinition)| (e.0@, opt_text(e.1.display_name))
}

/// A speaker entry's texts fit the encoding.
pub open spec fn speaker_ok() -> spec_fn((String, SpeakerDefinition)) -> bool {
    |e: (String, SpeakerDefinition)| fits(e.0@) && (opt_text(e.1.display_name) matches Some(v) ==> fits(v))
}

/// What the encoding writes of a registry entry: its name and values.
pub open spec fn registry_view() -> spec_fn((String, RegistryDefinition)) -> (Seq<char>, Seq<Seq<char>>) {
    |e: (String, RegistryDefinition)| (e.0@, e.1.values.elems())
}

/// A registry entry's texts fit the encoding.
pub open spec fn registry_ok() -> spec_fn((String, RegistryDefinition)) -> bool {
    |e: (String, RegistryDefinition)| fits(e.0@) && set_fits(e.1.values)
}

/// The values of an enum type.
pub open spec fn type_values(d: SchemaTypeDefinition) -> StrSet {
    match d {
        SchemaTypeDefinition::Enum(e) => e.values,
    }
}

/// What the encoding writes of a type entry: its name and enum values.
pub open spec fn type_view() -> spec_fn((String, SchemaTypeDefinition)) -> (Seq<char>, Seq<Seq<char>>) {
    |e: (String, SchemaTypeDefinition)| (e.0@, type_values(e.1).elems())
}

/// A type entry's texts fit the encoding.
pub open spec fn type_ok() -> spec_fn((String, SchemaTypeDefinition)) -> bool {
    |e: (String, SchemaTypeDefinition)| fits(e.0@) && set_fits(type_values(e.1))
}

proof fn lemma_speaker_items() 
    ensures
        prefix_free(speaker_entry_item(), speaker_view(), speaker_ok()),
{
    let f = speaker_entry_item();
    assert forall|x: (String, SpeakerDefinition), y: (String, SpeakerDefinition), r1: Seq<u8>, r2: Seq<u8>|
        speaker_ok()(x) && speaker_ok()(y) && #[trigger] (f(x) + r1) == #[trigger] (f(y) + r2) implies speaker_view()(x)
        == speaker_view()(y) && r1 == r2 by {
        reveal(field_option_string_bytes);
        let ox = opt_text(x.1.display_name);
        let oy = opt_text(y.1.display_name);
        let t1 = field_bytes("display_name"@) + (option_string_bytes(ox) + r1);
        let t2 = field_bytes("display_name"@) + (option_string_bytes(oy) + r2);
        assert(f(x) + r1 == entry_bytes(x.0@) + t1);
        assert(f(y) + r2 == entry_bytes(y.0@) + t2);
        lemma_entry_prefix(x.0@, y.0@, t1, t2);
        lemma_same_prefix(field_bytes("display_name"@), option_string_bytes(ox) + r1, option_string_bytes(oy) + r2);
        lemma_option_string_prefix(ox, oy, r1, r2);
    }
}

proof fn lemma_registry_items()
    ensures
        prefix_free(registry_entry_item(), registry_view(), registry_ok()),
{
    let f = registry_entry_item();
    assert forall|x: (String, RegistryDefinition), y: (String, RegistryDefinition), r1: Seq<u8>, r2: Seq<u8>|
        registry_ok()(x) && registry_ok()(y) && #[trigger] (f(x) + r1) == #[trigger] (f(y) + r2) implies registry_view()(
        x) == registry_view()(y) && r1 == r2 by {
        let t1 = string_set_bytes("values"@, x.1.values) + r1;
        let t2 = string_set_bytes("values"@, y.1.values) + r2;
        assert(f(x) + r1 == entry_bytes(x.0@) + t1);
        assert(f(y) + r2 == entry_bytes(y.0@) + t2);
        lemma_entry_prefix(x.0@, y.0@, t1, t2);
        lemma_string_set_prefix("values"@, x.1.values, y.1.values, r1, r2);
    }
}

proof fn lemma_type_items()
    ensures
        prefix_free(type_entry_item(), type_view(), type_ok()),
{
    let f = type_entry_item();
    assert forall|x: (String, SchemaTypeDefinition), y: (String, SchemaTypeDefinition), r1: Seq<u8>, r2: Seq<u8>|
        type_ok()(x) && type_ok()(y) && #[trigger] (f(x) + r1) == #[trigger] (f(y) + r2) implies type_view()(x)
        == type_view()(y) && r1 == r2 by {
        let kind = field_string_bytes("kind"@, "enum"@);
        let t1 = kind + (string_set_bytes("values"@, type_values(x.1)) + r1);
        let t2 = kind + (string_set_bytes("values"@, type_values(y.1)) + r2);
        assert(f(x) + r1 == entry_bytes(x.0@) + t1);
        assert(f(y) + r2 == entry_bytes(y.0@) + t2);
        lemma_entry_prefix(x.0@, y.0@, t1, t2);
        lemma_same_prefix(kind, string_set_bytes("values"@, type_values(x.1)) + r1, string_set_bytes(
            "values"@,
            type_values(y.1),
        ) + r2);
        lemma_string_set_prefix("values"@, type_values(x.1), type_values(y.1), r1, r2);
    }
}

// ---------------------------------------------------------------------------
// Presentation projector parts.

/// What an input reference says: input or query result, and its name.
pub open spec fn input_ref_key(r: ProjectionInputRef) -> (bool, Seq<char>) {
    match r {
        ProjectionInputRef::Input { name } => (true, name@),
        ProjectionInputRef::QueryResult { name } => (false, name@),
    }
}

/// An input reference's name fits the encoding.
pub open spec fn input_ref_fits(r: ProjectionInputRef) -> bool {
    fits(input_ref_key(r).1)
}

/// An input reference is read back exactly.
pub proof fn lemma_input_ref_prefix(a: ProjectionInputRef, b: ProjectionInputRef, r1: Seq<u8>, r2: Seq<u8>)
    requires
        input_ref_fits(a),
        input_ref_fits(b),
        input_ref_bytes(a) + r1 == input_ref_bytes(b) + r2,
    ensures
        input_ref_key(a) == input_ref_key(b),
        r1 == r2,
{
    reveal(input_ref_bytes);
    reveal_strlit("input");
    reveal_strlit("query_result");
    let w1 = if a is Input { "input"@ } else { "query_result"@ };
    let w2 = if b is Input { "input"@ } else { "query_result"@ };
    lemma_short_fits(w1);
    lemma_short_fits(w2);
    let t1 = str_bytes(input_ref_key(a).1) + r1;
    let t2 = str_bytes(input_ref_key(b).1) + r2;
    assert(input_ref_bytes(a) + r1 == str_bytes(w1) + t1);
    assert(input_ref_bytes(b) + r2 == str_bytes(w2) + t2);
    lemma_str_prefix(w1, w2, t1, t2);
    assert(w1[0] == w2[0]);
    lemma_str_prefix(input_ref_key(a).1, input_ref_key(b).1, r1, r2);
}

/// What a field source says: input, query result or literal, with its name or value.
pub open spec fn field_source_key(f: PresentationAffordanceFieldSource) -> (int, Seq<char>, (int, Seq<char>, i64, bool)) {
    match f {
        PresentationAffordanceFieldSource::Input { name } => (0, name@, (0, Seq::empty(), 0, false)),
        PresentationAffordanceFieldSource::QueryResult { name } => (1, name@, (0, Seq::empty(), 0, false)),
        PresentationAffordanceFieldSource::Literal(v) => (2, Seq::empty(), literal_key(v)),
    }
}

/// A field source's texts fit the encoding.
pub open spec fn field_source_fits(f: PresentationAffordanceFieldSource) -> bool {
    match f {
        PresentationAffordanceFieldSource::Literal(v) => literal_fits(v),
        _ => fits(field_source_key(f).1),
    }
}

/// A field source is read back exactly.
pub proof fn lemma_field_source_prefix(
    a: PresentationAffordanceFieldSource,
    b: PresentationAffordanceFieldSource,
    r1: Seq<u8>,
    r2: Seq<u8>,
)
    requires
        field_source_fits(a),
        field_source_fits(b),
        field_source_bytes(a) + r1 == field_source_bytes(b) + r2,
    ensures
        field_source_key(a) == field_source_key(b),
        r1 == r2,
{
    reveal(field_source_bytes);
    reveal_strlit("input");
    reveal_strlit("query_result");
    reveal_strlit("literal");
    let w1 = match a {
        PresentationAffordanceFieldSource::Input { .. } => "input"@,
        PresentationAffordanceFieldSource::QueryResult { .. } => "query_result"@,
        PresentationAffordanceFieldSource::Literal(_) => "literal"@,
    };
    let w2 = match b {
        PresentationAffordanceFieldSource::Input { .. } => "input"@,
        PresentationAffordanceFieldSource::QueryResult { .. } => "query_result"@,
        PresentationAffordanceFieldSource::Literal(_) => "literal"@,
    };
    lemma_short_fits(w1);
    lemma_short_fits(w2);
    let t1 = match a {
        PresentationAffordanceFieldSource::Literal(v) => literal_bytes(v) + r1,
        _ => str_bytes(field_source_key(a).1) + r1,
    };
    let t2 = match b {
        PresentationAffordanceFieldSource::Literal(v) => literal_bytes(v) + r2,
        _ => str_bytes(field_source_key(b).1) + r2,
    };
    assert(field_source_bytes(a) + r1 == str_bytes(w1) + t1);
    assert(field_source_bytes(b) + r2 == str_bytes(w2) + t2);
    lemma_str_prefix(w1, w2, t1, t2);
    assert(w1[0] == w2[0]);
    match a {
        PresentationAffordanceFieldSource::Literal(v) => {
            lemma_literal_prefix(v, b->Literal_0, r1, r2);
        },
        _ => {
            lemma_str_prefix(field_source_key(a).1, field_source_key(b).1, r1, r2);
        },
    }
}

/// An output target is read back exactly.
pub proof fn lemma_output_target_prefix(a: ProjectionOutputTarget, b: ProjectionOutputTarget, r1: Seq<u8>, r2: Seq<u8>)
    requires
        output_target_bytes(a) + r1 == output_target_bytes(b) + r2,
    ensures
        a == b,
        r1 == r2,
{
    reveal(output_target_bytes);
    reveal_strlit("candidate");
    reveal_strlit("event");
    reveal_strlit("prompt");
    let w1 = match a {
        ProjectionOutputTarget::Candidate => "candidate"@,
        ProjectionOutputTarget::Event => "event"@,
        ProjectionOutputTarget::Prompt => "prompt"@,
    };
    let w2 = match b {
        ProjectionOutputTarget::Candidate => "candidate"@,
        ProjectionOutputTarget::Event => "event"@,
        ProjectionOutputTarget::Prompt => "prompt"@,
    };
    lemma_short_fits(w1);
    lemma_short_fits(w2);
    assert(output_target_bytes(a) + r1 == str_bytes(w1) + r1);
    assert(output_target_bytes(b) + r2 == str_bytes(w2) + r2);
    lemma_str_prefix(w1, w2, r1, r2);
    assert(w1[0] == w2[0]);
}

/// A metadata occurrence is read back exactly.
pub proof fn lemma_occurrence_prefix(a: MetadataOccurrence, b: MetadataOccurrence, r1: Seq<u8>, r2: Seq<u8>)
    requires
        occurrence_bytes(a) + r1 == occurrence_bytes(b) + r2,
    ensures
        a == b,
        r1 == r2,
{
    reveal(occurrence_bytes);
    reveal_strlit("only");
    reveal_strlit("first");
    reveal_strlit("last");
    reveal_strlit("index");
    reveal_strlit("all");
    let w1 = match a {
        MetadataOccurrence::Only => "only"@,
        MetadataOccurrence::First => "first"@,
        MetadataOccurrence::Last => "last"@,
        MetadataOccurrence::Index(_) => "index"@,
        MetadataOccurrence::All => "all"@,
    };
    let w2 = match b {
        MetadataOccurrence::Only => "only"@,
        MetadataOccurrence::First => "first"@,
        MetadataOccurrence::Last => "last"@,
        MetadataOccurrence::Index(_) => "index"@,
        MetadataOccurrence::All => "all"@,
    };
    lemma_short_fits(w1);
    lemma_short_fits(w2);
    let t1 = match a {
        MetadataOccurrence::Index(i) => u32_bytes(i) + r1,
        _ => r1,
    };
    let t2 = match b {
        MetadataOccurrence::Index(i) => u32_bytes(i) + r2,
        _ => r2,
    };
    assert(occurrence_bytes(a) + r1 == str_bytes(w1) + t1);
    assert(occurrence_bytes(b) + r2 == str_bytes(w2) + t2);
    lemma_str_prefix(w1, w2, t1, t2);
    assert(w1.len() == w2.len() && w1[0] == w2[0]);
    if let MetadataOccurrence::Index(i) = a {
        lemma_u32_prefix(i, b->Index_0, r1, r2);
    }
}

/// The word that opens an input source's encoding.
pub open spec fn input_source_word(v: SchemaProjectionInputSource) -> Seq<char> {
    match v {
        SchemaProjectionInputSource::EventKind => "event_kind"@,
        SchemaProjectionInputSource::CandidateLineId => "candidate_line_id"@,
        SchemaProjectionInputSource::CandidateChoiceId => "candidate_choice_id"@,
        SchemaProjectionInputSource::CandidateEffectRequestId => "candidate_effect_request_id"@,
        SchemaProjectionInputSource::CandidateBlockId => "candidate_block_id"@,
        SchemaProjectionInputSource::CandidateProject => "candidate_project"@,
        SchemaProjectionInputSource::CandidateMetadata { .. } => "candidate_metadata"@,
        SchemaProjectionInputSource::AvailabilityReasonArg { .. } => "availability_reason_arg"@,
        SchemaProjectionInputSource::Literal(_) => "literal"@,
    }
}

/// The variant of an input source, as a number.
pub open spec fn input_source_tag(v: SchemaProjectionInputSource) -> int {
    match v {
        SchemaProjectionInputSource::EventKind => 0,
        SchemaProjectionInputSource::CandidateLineId => 1,
        SchemaProjectionInputSource::CandidateChoiceId => 2,
        SchemaProjectionInputSource::CandidateEffectRequestId => 3,
        SchemaProjectionInputSource::CandidateBlockId => 4,
        SchemaProjectionInputSource::CandidateProject => 5,
        SchemaProjectionInputSource::CandidateMetadata { .. } => 6,
        SchemaProjectionInputSource::AvailabilityReasonArg { .. } => 7,
        SchemaProjectionInputSource::Literal(_) => 8,
    }
}

proof fn lemma_input_source_words(a: SchemaProjectionInputSource, b: SchemaProjectionInputSource)
    requires
        input_source_word(a) == input_source_word(b),
    ensures
        input_source_tag(a) == input_source_tag(b),
{
    reveal_strlit("event_kind");
    reveal_strlit("candidate_line_id");
    reveal_strlit("candidate_choice_id");
    reveal_strlit("candidate_effect_request_id");
    reveal_strlit("candidate_block_id");
    reveal_strlit("candidate_project");
    reveal_strlit("candidate_metadata");
    reveal_strlit("availability_reason_arg");
    reveal_strlit("literal");
    let w1 = input_source_word(a);
    let w2 = input_source_word(b);
    assert(w1.len() == w2.len() && w1[0] == w2[0]);
    if w1.len() > 10 {
        assert(w1[10] == w2[10]);
    }
}

/// What an input source says: its variant, its key or name, its occurrence
/// and its literal.
pub open spec fn input_source_key(v: SchemaProjectionInputSource) -> (
    int,
    Seq<char>,
    MetadataOccurrence,
    (int, Seq<char>, i64, bool),
) {
    match v {
        SchemaProjectionInputSource::CandidateMetadata { key, occurrence } => (6, key@, occurrence, (
            0,
            Seq::empty(),
            0,
            false,
        )),
        SchemaProjectionInputSource::AvailabilityReasonArg { name } => (7, name@, MetadataOccurrence::All, (
            0,
            Seq::empty(),
            0,
            false,
        )),
        SchemaProjectionInputSource::Literal(l) => (8, Seq::empty(), MetadataOccurrence::All, literal_key(l)),
        _ => (input_source_tag(v), Seq::empty(), MetadataOccurrence::All, (0, Seq::empty(), 0, false)),
    }
}

/// An input source's texts fit the encoding.
pub open spec fn input_source_fits(v: SchemaProjectionInputSource) -> bool {
    match v {
        SchemaProjectionInputSource::CandidateMetadata { key, .. } => fits(key@),
        SchemaProjectionInputSource::AvailabilityReasonArg { name } => fits(name@),
        SchemaProjectionInputSource::Literal(l) => literal_fits(l),
        _ => true,
    }
}

/// An input source is read back exactly.
#[verifier::spinoff_prover]
pub proof fn lemma_input_source_prefix(
    a: SchemaProjectionInputSource,
    b: SchemaProjectionInputSource,
    r1: Seq<u8>,
    r2: Seq<u8>,
)
    requires
        input_source_fits(a),
        input_source_fits(b),
        input_source_bytes(a) + r1 == input_source_bytes(b) + r2,
    ensures
        input_source_key(a) == input_source_key(b),
        r1 == r2,
{
    reveal(input_source_bytes);
    let w1 = input_source_word(a);
    let w2 = input_source_word(b);
    reveal_strlit("event_kind");
    reveal_strlit("candidate_line_id");
    reveal_strlit("candidate_choice_id");
    reveal_strlit("candidate_effect_request_id");
    reveal_strlit("candidate_block_id");
    reveal_strlit("candidate_project");
    reveal_strlit("candidate_metadata");
    reveal_strlit("availability_reason_arg");
    reveal_strlit("literal");
    lemma_short_fits(w1);
    lemma_short_fits(w2);
    let t1 = match a {
        SchemaProjectionInputSource::CandidateMetadata { key, occurrence } => str_bytes(key@) + (occurrence_bytes(
            occurrence,
        ) + r1),
        SchemaProjectionInputSource::AvailabilityReasonArg { name } => str_bytes(name@) + r1,
        SchemaProjectionInputSource::Literal(l) => literal_bytes(l) + r1,
        _ => r1,
    };
    let t2 = match b {
        SchemaProjectionInputSource::CandidateMetadata { key, occurrence } => str_bytes(key@) + (occurrence_bytes(
            occurrence,
        ) + r2),
        SchemaProjectionInputSource::AvailabilityReasonArg { name } => str_bytes(name@) + r2,
        SchemaProjectionInputSource::Literal(l) => literal_bytes(l) + r2,
        _ => r2,
    };
    assert(input_source_bytes(a) + r1 =~= str_bytes(w1) + t1);
    assert(input_source_bytes(b) + r2 =~= str_bytes(w2) + t2);
    lemma_str_prefix(w1, w2, t1, t2);
    lemma_input_source_words(a, b);
    match a {
        SchemaProjectionInputSource::CandidateMetadata { key, occurrence } => {
            let k2 = b->CandidateMetadata_key;
            let o2 = b->CandidateMetadata_occurrence;
            lemma_str_prefix(key@, k2@, occurrence_bytes(occurrence) + r1, occurrence_bytes(o2) + r2);
            lemma_occurrence_prefix(occurrence, o2, r1, r2);
        },
        SchemaProjectionInputSource::AvailabilityReasonArg { name } => {
            lemma_str_prefix(name@, b->AvailabilityReasonArg_name@, r1, r2);
        },
        SchemaProjectionInputSource::Literal(l) => {
            lemma_literal_prefix(l, b->Literal_0, r1, r2);
        },
        _ => {},
    }
}

/// What a candidate selector says: its variant, its text (event kind, key or
/// reason), its target and its required keys.
pub open spec fn selector_view_of(v: SchemaProjectionSelector) -> (int, Seq<char>, MetadataTarget, Seq<Seq<char>>) {
    match v {
        SchemaProjectionSelector::RuntimeEvent { kind } => (0, kind@, MetadataTarget::Block, Seq::empty()),
        SchemaProjectionSelector::MetadataKey { target, key } => (1, key@, target, Seq::empty()),
        SchemaProjectionSelector::MetadataSet { target, required_keys } => (2, Seq::empty(), target, required_keys@.map_values(
            |k: String| k@,
        )),
        SchemaProjectionSelector::AvailabilityReason { reason_id } => (3, reason_id.text(), MetadataTarget::Block, Seq::empty()),
    }
}

/// A candidate selector's texts fit the encoding.
pub open spec fn selector_fits(v: SchemaProjectionSelector) -> bool {
    match v {
        SchemaProjectionSelector::RuntimeEvent { kind } => fits(kind@),
        SchemaProjectionSelector::MetadataKey { key, .. } => fits(key@),
        SchemaProjectionSelector::MetadataSet { required_keys, .. } => required_keys@.len() < 0x1_0000_0000_0000_0000
            && forall|i: int| 0 <= i < required_keys@.len() ==> fits((#[trigger] required_keys@[i])@),
        SchemaProjectionSelector::AvailabilityReason { reason_id } => fits(reason_id.text()),
    }
}

proof fn lemma_string_items()
    ensures
        prefix_free(string_item(), |s: String| s@, |s: String| fits(s@)),
{
    let f = string_item();
    assert forall|x: String, y: String, r1: Seq<u8>, r2: Seq<u8>|
        fits(x@) && fits(y@) && #[trigger] (f(x) + r1) == #[trigger] (f(y) + r2) implies x@ == y@ && r1 == r2 by {
        lemma_str_prefix(x@, y@, r1, r2);
    }
}

proof fn lemma_target_word_prefix(a: MetadataTarget, b: MetadataTarget, r1: Seq<u8>, r2: Seq<u8>)
    requires
        metadata_target_item()(a) + r1 == metadata_target_item()(b) + r2,
    ensures
        a == b,
        r1 == r2,
{
    lemma_target_items();
}

/// A candidate selector is read back exactly.
#[verifier::spinoff_prover]
pub proof fn lemma_selector_bytes_prefix(
    a: SchemaProjectionSelector,
    b: SchemaProjectionSelector,
    r1: Seq<u8>,
    r2: Seq<u8>,
)
    requires
        selector_fits(a),
        selector_fits(b),
        projection_selector_bytes(a) + r1 == projection_selector_bytes(b) + r2,
    ensures
        selector_view_of(a) == selector_view_of(b),
        r1 == r2,
{
    reveal(projection_selector_bytes);
    reveal_strlit("runtime_event");
    reveal_strlit("metadata_key");
    reveal_strlit("metadata_set");
    reveal_strlit("availability_reason");
    let w1 = match a {
        SchemaProjectionSelector::RuntimeEvent { .. } => "runtime_event"@,
        SchemaProjectionSelector::MetadataKey { .. } => "metadata_key"@,
        SchemaProjectionSelector::MetadataSet { .. } => "metadata_set"@,
        SchemaProjectionSelector::AvailabilityReason { .. } => "availability_reason"@,
    };
    let w2 = match b {
        SchemaProjectionSelector::RuntimeEvent { .. } => "runtime_event"@,
        SchemaProjectionSelector::MetadataKey { .. } => "metadata_key"@,
        SchemaProjectionSelector::MetadataSet { .. } => "metadata_set"@,
        SchemaProjectionSelector::AvailabilityReason { .. } => "availability_reason"@,
    };
    lemma_short_fits(w1);
    lemma_short_fits(w2);
    let t1 = match a {
        SchemaProjectionSelector::RuntimeEvent { kind } => str_bytes(kind@) + r1,
        SchemaProjectionSelector::MetadataKey { target, key } => metadata_target_item()(target) + (str_bytes(key@)
            + r1),
        SchemaProjectionSelector::MetadataSet { target, required_keys } => metadata_target_item()(target) + (len_bytes(
            required_keys@.len(),
        ) + (concat_map(required_keys@, string_item()) + r1)),
        SchemaProjectionSelector::AvailabilityReason { reason_id } => str_bytes(reason_id.text()) + r1,
    };
    let t2 = match b {
        SchemaProjectionSelector::RuntimeEvent { kind } => str_bytes(kind@) + r2,
        SchemaProjectionSelector::MetadataKey { target, key } => metadata_target_item()(target) + (str_bytes(key@)
            + r2),
        SchemaProjectionSelector::MetadataSet { target, required_keys } => metadata_target_item()(target) + (len_bytes(
            required_keys@.len(),
        ) + (concat_map(required_keys@, string_item()) + r2)),
        SchemaProjectionSelector::AvailabilityReason { reason_id } => str_bytes(reason_id.text()) + r2,
    };
    assert(projection_selector_bytes(a) + r1 =~= str_bytes(w1) + t1);
    assert(projection_selector_bytes(b) + r2 =~= str_bytes(w2) + t2);
    lemma_str_prefix(w1, w2, t1, t2);
    assert(w1.len() == w2.len() && w1[0] == w2[0]);
    if w1.len() > 9 {
        assert(w1[9] == w2[9]);
    }
    match a {
        SchemaProjectionSelector::RuntimeEvent { kind } => {
            lemma_str_prefix(kind@, b->RuntimeEvent_kind@, r1, r2);
        },
        SchemaProjectionSelector::MetadataKey { target, key } => {
            let k2 = b->MetadataKey_key;
            lemma_target_word_prefix(target, b->MetadataKey_target, str_bytes(key@) + r1, str_bytes(k2@) + r2);
            lemma_str_prefix(key@, k2@, r1, r2);
        },
        SchemaProjectionSelector::MetadataSet { target, required_keys } => {
            let q2 = b->MetadataSet_required_keys;
            let c1 = concat_map(required_keys@, string_item()) + r1;
            let c2 = concat_map(q2@, string_item()) + r2;
            lemma_target_word_prefix(target, b->MetadataSet_target, len_bytes(required_keys@.len()) + c1, len_bytes(
                q2@.len(),
            ) + c2);
            lemma_len_prefix(required_keys@.len(), q2@.len(), c1, c2);
            lemma_string_items();
            lemma_items_prefix(required_keys@, q2@, string_item(), |s: String| s@, |s: String| fits(s@), r1, r2);
        },
        SchemaProjectionSelector::AvailabilityReason { reason_id } => {
            lemma_str_prefix(reason_id.text(), b->AvailabilityReason_reason_id.text(), r1, r2);
        },
    }
}

/// What the encoding writes of a projector input.
pub open spec fn input_view() -> spec_fn(ProjectionInput) -> (
    Seq<char>,
    (int, Seq<char>, MetadataOccurrence, (int, Seq<char>, i64, bool)),
    TypeRefView,
    bool,
) {
    |i: ProjectionInput| (i.name@, input_source_key(i.source), i.type_ref@, i.required)
}

/// A projector input's texts fit the encoding.
pub open spec fn input_ok() -> spec_fn(ProjectionInput) -> bool {
    |i: ProjectionInput| fits(i.name@) && input_source_fits(i.source) && type_ref_fits(i.type_ref@)
}

#[verifier::spinoff_prover]
proof fn lemma_input_prefix(x: ProjectionInput, y: ProjectionInput, r1: Seq<u8>, r2: Seq<u8>)
    requires
        input_ok()(x),
        input_ok()(y),
        input_item()(x) + r1 == input_item()(y) + r2,
    ensures
        input_view()(x) == input_view()(y),
        r1 == r2,
{
    let a1 = field_bool_bytes("required"@, x.required) + r1;
    let a2 = field_bool_bytes("required"@, y.required) + r2;
    let b1 = type_ref_bytes(x.type_ref@) + a1;
    let b2 = type_ref_bytes(y.type_ref@) + a2;
    let c1 = field_bytes("type"@) + b1;
    let c2 = field_bytes("type"@) + b2;
    let d1 = input_source_bytes(x.source) + c1;
    let d2 = input_source_bytes(y.source) + c2;
    let e1 = field_bytes("source"@) + d1;
    let e2 = field_bytes("source"@) + d2;
    assert(input_item()(x) + r1 =~= entry_bytes(x.name@) + e1);
    assert(input_item()(y) + r2 =~= entry_bytes(y.name@) + e2);
    lemma_entry_prefix(x.name@, y.name@, e1, e2);
    lemma_same_prefix(field_bytes("source"@), d1, d2);
    lemma_input_source_prefix(x.source, y.source, c1, c2);
    lemma_same_prefix(field_bytes("type"@), b1, b2);
    lemma_type_ref_prefix(x.type_ref@, y.type_ref@, a1, a2);
    lemma_field_bool_prefix("required"@, x.required, y.required, r1, r2);
}

proof fn lemma_input_items()
    ensures
        prefix_free(input_item(), input_view(), input_ok()),
{
    let f = input_item();
    assert forall|x: ProjectionInput, y: ProjectionInput, r1: Seq<u8>, r2: Seq<u8>|
        input_ok()(x) && input_ok()(y) && #[trigger] (f(x) + r1) == #[trigger] (f(y) + r2) implies input_view()(x)
        == input_view()(y) && r1 == r2 by {
        lemma_input_prefix(x, y, r1, r2);
    }
}

/// A list of projector inputs fits the encoding.
pub open spec fn inputs_fit(s: Seq<ProjectionInput>) -> bool {
    &&& s.len() < 0x1_0000_0000_0000_0000
    &&& forall|i: int| 0 <= i < s.len() ==> input_ok()(#[trigger] s[i])
}

/// A projector's inputs are read back exactly.
pub proof fn lemma_inputs_prefix(a: Seq<ProjectionInput>, b: Seq<ProjectionInput>, r1: Seq<u8>, r2: Seq<u8>)
    requires
        inputs_fit(a),
        inputs_fit(b),
        inputs_bytes(a) + r1 == inputs_bytes(b) + r2,
    ensures
        a.map_values(input_view()) == b.map_values(input_view()),
        r1 == r2,
{
    reveal(inputs_bytes);
    let c1 = concat_map(a, input_item()) + r1;
    let c2 = concat_map(b, input_item()) + r2;
    assert(inputs_bytes(a) + r1 == field_bytes("inputs"@) + (len_bytes(a.len()) + c1));
    assert(inputs_bytes(b) + r2 == field_bytes("inputs"@) + (len_bytes(b.len()) + c2));
    lemma_same_prefix(field_bytes("inputs"@), len_bytes(a.len()) + c1, len_bytes(b.len()) + c2);
    lemma_len_prefix(a.len(), b.len(), c1, c2);
    lemma_input_items();
    lemma_items_prefix(a, b, input_item(), input_view(), input_ok(), r1, r2);
}

proof fn lemma_input_ref_items()
    ensures
        prefix_free(input_ref_item(), |r: ProjectionInputRef| input_ref_key(r), |r: ProjectionInputRef| input_ref_fits(r)),
{
    let f = input_ref_item();
    assert forall|x: ProjectionInputRef, y: ProjectionInputRef, r1: Seq<u8>, r2: Seq<u8>|
        input_ref_fits(x) && input_ref_fits(y) && #[trigger] (f(x) + r1) == #[trigger] (f(y) + r2) implies input_ref_key(x)
        == input_ref_key(y) && r1 == r2 by {
        lemma_input_ref_prefix(x, y, r1, r2);
    }
}

/// A list of input references fits the encoding.
pub open spec fn refs_fit(s: Seq<ProjectionInputRef>) -> bool {
    &&& s.len() < 0x1_0000_0000_0000_0000
    &&& forall|i: int| 0 <= i < s.len() ==> input_ref_fits(#[trigger] s[i])
}

/// A named list of input references is read back exactly.
pub proof fn lemma_input_refs_prefix(
    name: Seq<char>,
    a: Seq<ProjectionInputRef>,
    b: Seq<ProjectionInputRef>,
    r1: Seq<u8>,
    r2: Seq<u8>,
)
    requires
        refs_fit(a),
        refs_fit(b),
        input_refs_bytes(name, a) + r1 == input_refs_bytes(name, b) + r2,
    ensures
        a.map_values(|r: ProjectionInputRef| input_ref_key(r)) == b.map_values(|r: ProjectionInputRef| input_ref_key(r)),
        r1 == r2,
{
    reveal(input_refs_bytes);
    let c1 = concat_map(a, input_ref_item()) + r1;
    let c2 = concat_map(b, input_ref_item()) + r2;
    assert(input_refs_bytes(name, a) + r1 == field_bytes(name) + (len_bytes(a.len()) + c1));
    assert(input_refs_bytes(name, b) + r2 == field_bytes(name) + (len_bytes(b.len()) + c2));
    lemma_same_prefix(field_bytes(name), len_bytes(a.len()) + c1, len_bytes(b.len()) + c2);
    lemma_len_prefix(a.len(), b.len(), c1, c2);
    lemma_input_ref_items();
    lemma_items_prefix(a, b, input_ref_item(), |r: ProjectionInputRef| input_ref_key(r), |r: ProjectionInputRef|
        input_ref_fits(r), r1, r2);
}

/// What the encoding writes of a projector query call.
pub open spec fn query_call_view() -> spec_fn((String, ProjectionQueryDefinition)) -> (
    Seq<char>,
    Seq<char>,
    Seq<(bool, Seq<char>)>,
) {
    |e: (String, ProjectionQueryDefinition)| (e.0@, e.1.function@, e.1.args@.map_values(|r: ProjectionInputRef| input_ref_key(r)))
}

/// A projector query call's texts fit the encoding.
pub open spec fn query_call_ok() -> spec_fn((String, ProjectionQueryDefinition)) -> bool {
    |e: (String, ProjectionQueryDefinition)| fits(e.0@) && fits(e.1.function@) && refs_fit(e.1.args@)
}

proof fn lemma_query_call_items()
    ensures
        prefix_free(query_entry_item(), query_call_view(), query_call_ok()),
{
    let f = query_entry_item();
    assert forall|x: (String, ProjectionQueryDefinition), y: (String, ProjectionQueryDefinition), r1: Seq<u8>, r2: Seq<u8>|
        query_call_ok()(x) && query_call_ok()(y) && #[trigger] (f(x) + r1) == #[trigger] (f(y) + r2) implies query_call_view()(
        x) == query_call_view()(y) && r1 == r2 by {
        let a1 = input_refs_bytes("args"@, x.1.args@) + r1;
        let a2 = input_refs_bytes("args"@, y.1.args@) + r2;
        let b1 = field_string_bytes("function"@, x.1.function@) + a1;
        let b2 = field_string_bytes("function"@, y.1.function@) + a2;
        assert(f(x) + r1 =~= entry_bytes(x.0@) + b1);
        assert(f(y) + r2 =~= entry_bytes(y.0@) + b2);
        lemma_entry_prefix(x.0@, y.0@, b1, b2);
        lemma_field_string_prefix("function"@, x.1.function@, y.1.function@, a1, a2);
        lemma_input_refs_prefix("args"@, x.1.args@, y.1.args@, r1, r2);
    }
}

/// A projector's query calls are read back exactly.
pub proof fn lemma_queries_prefix(
    a: StrMap<ProjectionQueryDefinition>,
    b: StrMap<ProjectionQueryDefinition>,
    r1: Seq<u8>,
    r2: Seq<u8>,
)
    requires
        section_fits(a, query_call_ok()),
        section_fits(b, query_call_ok()),
        queries_bytes(a) + r1 == queries_bytes(b) + r2,
    ensures
        a.entry_seq().map_values(query_call_view()) == b.entry_seq().map_values(query_call_view()),
        r1 == r2,
{
    reveal(queries_bytes);
    let s1 = a.entry_seq();
    let s2 = b.entry_seq();
    let c1 = concat_map(s1, query_entry_item()) + r1;
    let c2 = concat_map(s2, query_entry_item()) + r2;
    assert(queries_bytes(a) + r1 == field_bytes("queries"@) + (len_bytes(s1.len()) + c1));
    assert(queries_bytes(b) + r2 == field_bytes("queries"@) + (len_bytes(s2.len()) + c2));
    lemma_same_prefix(field_bytes("queries"@), len_bytes(s1.len()) + c1, len_bytes(s2.len()) + c2);
    lemma_len_prefix(s1.len(), s2.len(), c1, c2);
    lemma_query_call_items();
    lemma_items_prefix(s1, s2, query_entry_item(), query_call_view(), query_call_ok(), r1, r2);
}

/// What the encoding writes of a label argument.
pub open spec fn label_arg_view() -> spec_fn((String, PresentationLabelArgDefinition)) -> (
    Seq<char>,
    (bool, Seq<char>),
    TypeRefView,
) {
    |e: (String, PresentationLabelArgDefinition)| (e.0@, input_ref_key(e.1.source), e.1.type_ref@)
}

/// A label argument's texts fit the encoding.
pub open spec fn label_arg_ok() -> spec_fn((String, PresentationLabelArgDefinition)) -> bool {
    |e: (String, PresentationLabelArgDefinition)| fits(e.0@) && input_ref_fits(e.1.source) && type_ref_fits(e.1.type_ref@)
}

proof fn lemma_label_arg_items()
    ensures
        prefix_free(label_arg_entry_item(), label_arg_view(), label_arg_ok()),
{
    let f = label_arg_entry_item();
    assert forall|x: (String, PresentationLabelArgDefinition), y: (String, PresentationLabelArgDefinition), r1: Seq<u8>,
        r2: Seq<u8>| label_arg_ok()(x) && label_arg_ok()(y) && #[trigger] (f(x) + r1) == #[trigger] (f(y) + r2) implies label_arg_view()(
        x) == label_arg_view()(y) && r1 == r2 by {
        let a1 = type_ref_bytes(x.1.type_ref@) + r1;
        let a2 = type_ref_bytes(y.1.type_ref@) + r2;
        let b1 = field_bytes("type"@) + a1;
        let b2 = field_bytes("type"@) + a2;
        let c1 = input_ref_bytes(x.1.source) + b1;
        let c2 = input_ref_bytes(y.1.source) + b2;
        let d1 = field_bytes("source"@) + c1;
        let d2 = field_bytes("source"@) + c2;
        assert(f(x) + r1 =~= entry_bytes(x.0@) + d1);
        assert(f(y) + r2 =~= entry_bytes(y.0@) + d2);
        lemma_entry_prefix(x.0@, y.0@, d1, d2);
        lemma_same_prefix(field_bytes("source"@), c1, c2);
        lemma_input_ref_prefix(x.1.source, y.1.source, b1, b2);
        lemma_same_prefix(field_bytes("type"@), a1, a2);
        lemma_type_ref_prefix(x.1.type_ref@, y.1.type_ref@, r1, r2);
    }
}

/// What the encoding writes of a presentation label.
pub open spec fn label_key(l: PresentationLabelDefinition) -> (
    Seq<char>,
    Seq<char>,
    Seq<(Seq<char>, (bool, Seq<char>), TypeRefView)>,
) {
    (l.template_id@, l.source_text@, l.args.entry_seq().map_values(label_arg_view()))
}

/// A presentation label's texts fit the encoding.
pub open spec fn label_fits(l: PresentationLabelDefinition) -> bool {
    fits(l.template_id@) && fits(l.source_text@) && section_fits(l.args, label_arg_ok())
}

#[verifier::spinoff_prover]
proof fn lemma_label_prefix(a: PresentationLabelDefinition, b: PresentationLabelDefinition, r1: Seq<u8>, r2: Seq<u8>)
    requires
        label_fits(a),
        label_fits(b),
        label_bytes(a) + r1 == label_bytes(b) + r2,
    ensures
        label_key(a) == label_key(b),
        r1 == r2,
{
    reveal(label_bytes);
    let c1 = concat_map(a.args.entry_seq(), label_arg_entry_item()) + r1;
    let c2 = concat_map(b.args.entry_seq(), label_arg_entry_item()) + r2;
    let l1 = len_bytes(a.args.entry_seq().len()) + c1;
    let l2 = len_bytes(b.args.entry_seq().len()) + c2;
    let g1 = field_bytes("args"@) + l1;
    let g2 = field_bytes("args"@) + l2;
    let s1 = field_string_bytes("source_text"@, a.source_text@) + g1;
    let s2 = field_string_bytes("source_text"@, b.source_text@) + g2;
    assert(label_bytes(a) + r1 =~= field_string_bytes("template_id"@, a.template_id@) + s1);
    assert(label_bytes(b) + r2 =~= field_string_bytes("template_id"@, b.template_id@) + s2);
    lemma_field_string_prefix("template_id"@, a.template_id@, b.template_id@, s1, s2);
    lemma_field_string_prefix("source_text"@, a.source_text@, b.source_text@, g1, g2);
    lemma_same_prefix(field_bytes("args"@), l1, l2);
    lemma_len_prefix(a.args.entry_seq().len(), b.args.entry_seq().len(), c1, c2);
    lemma_label_arg_items();
    lemma_items_prefix(a.args.entry_seq(), b.args.entry_seq(), label_arg_entry_item(), label_arg_view(), label_arg_ok(),
        r1, r2);
}

/// What an optional label says.
pub open spec fn option_label_key(l: Option<PresentationLabelDefinition>) -> Option<
    (Seq<char>, Seq<char>, Seq<(Seq<char>, (bool, Seq<char>), TypeRefView)>),
> {
    match l {
        Some(x) => Some(label_key(x)),
        None => None,
    }
}

proof fn lemma_option_label_prefix(
    a: Option<PresentationLabelDefinition>,
    b: Option<PresentationLabelDefinition>,
    r1: Seq<u8>,
    r2: Seq<u8>,
)
    requires
        a matches Some(l) ==> label_fits(l),
        b matches Some(l) ==> label_fits(l),
        option_label_bytes(a) + r1 == option_label_bytes(b) + r2,
    ensures
        option_label_key(a) == option_label_key(b),
        r1 == r2,
{
    reveal(option_label_bytes);
    reveal_strlit("some");
    reveal_strlit("none");
    lemma_short_fits("some"@);
    lemma_short_fits("none"@);
    let w1 = if a is Some { "some"@ } else { "none"@ };
    let w2 = if b is Some { "some"@ } else { "none"@ };
    let t1 = match a {
        Some(l) => label_bytes(l) + r1,
        None => r1,
    };
    let t2 = match b {
        Some(l) => label_bytes(l) + r2,
        None => r2,
    };
    assert(option_label_bytes(a) + r1 == str_bytes(w1) + t1);
    assert(option_label_bytes(b) + r2 == str_bytes(w2) + t2);
    lemma_str_prefix(w1, w2, t1, t2);
    assert(w1[0] == w2[0]);
    if let Some(l) = a {
        lemma_label_prefix(l, b->0, r1, r2);
    }
}

/// What the encoding writes of an output field.
pub open spec fn output_field_view() -> spec_fn((String, PresentationAffordanceFieldDefinition)) -> (
    Seq<char>,
    (int, Seq<char>, (int, Seq<char>, i64, bool)),
    TypeRefView,
) {
    |e: (String, PresentationAffordanceFieldDefinition)| (e.0@, field_source_key(e.1.source), e.1.type_ref@)
}

/// An output field's texts fit the encoding.
pub open spec fn output_field_ok() -> spec_fn((String, PresentationAffordanceFieldDefinition)) -> bool {
    |e: (String, PresentationAffordanceFieldDefinition)| fits(e.0@) && field_source_fits(e.1.source) && type_ref_fits(
        e.1.type_ref@,
    )
}

proof fn lemma_output_field_items()
    ensures
        prefix_free(output_field_entry_item(), output_field_view(), output_field_ok()),
{
    let f = output_field_entry_item();
    assert forall|x: (String, PresentationAffordanceFieldDefinition), y: (String, PresentationAffordanceFieldDefinition),
        r1: Seq<u8>, r2: Seq<u8>| output_field_ok()(x) && output_field_ok()(y) && #[trigger] (f(x) + r1) == #[trigger] (f(
        y) + r2) implies output_field_view()(x) == output_field_view()(y) && r1 == r2 by {
        let a1 = type_ref_bytes(x.1.type_ref@) + r1;
        let a2 = type_ref_bytes(y.1.type_ref@) + r2;
        let b1 = field_bytes("type"@) + a1;
        let b2 = field_bytes("type"@) + a2;
        let c1 = field_source_bytes(x.1.source) + b1;
        let c2 = field_source_bytes(y.1.source) + b2;
        let d1 = field_bytes("source"@) + c1;
        let d2 = field_bytes("source"@) + c2;
        assert(f(x) + r1 =~= entry_bytes(x.0@) + d1);
        assert(f(y) + r2 =~= entry_bytes(y.0@) + d2);
        lemma_entry_prefix(x.0@, y.0@, d1, d2);
        lemma_same_prefix(field_bytes("source"@), c1, c2);
        lemma_field_source_prefix(x.1.source, y.1.source, b1, b2);
        lemma_same_prefix(field_bytes("type"@), a1, a2);
        lemma_type_ref_prefix(x.1.type_ref@, y.1.type_ref@, r1, r2);
    }
}

/// What the encoding writes of an output affordance.
pub open spec fn output_key(o: PresentationAffordanceOutputDefinition) -> (
    ProjectionOutputTarget,
    Seq<char>,
    Seq<char>,
    Option<(Seq<char>, Seq<char>, Seq<(Seq<char>, (bool, Seq<char>), TypeRefView)>)>,
    Seq<(Seq<char>, (int, Seq<char>, (int, Seq<char>, i64, bool)), TypeRefView)>,
) {
    (o.target, o.kind@, o.slot@, option_label_key(o.label), o.fields.entry_seq().map_values(output_field_view()))
}

/// An output affordance's texts fit the encoding.
pub open spec fn output_fits(o: PresentationAffordanceOutputDefinition) -> bool {
    &&& fits(o.kind@)
    &&& fits(o.slot@)
    &&& (o.label matches Some(l) ==> label_fits(l))
    &&& section_fits(o.fields, output_field_ok())
}

/// An output's encoding after its slot, followed by `r`.
pub open spec fn output_tail(o: PresentationAffordanceOutputDefinition, r: Seq<u8>) -> Seq<u8> {
    field_bytes("label"@) + (option_label_bytes(o.label) + (field_bytes("fields"@) + (len_bytes(
        o.fields.entry_seq().len(),
    ) + (concat_map(o.fields.entry_seq(), output_field_entry_item()) + r))))
}

proof fn lemma_output_bytes_split(o: PresentationAffordanceOutputDefinition, r: Seq<u8>)
    ensures
        output_bytes(o) + r == field_bytes("target"@) + (output_target_bytes(o.target) + (field_string_bytes(
            "kind"@,
            o.kind@,
        ) + (field_string_bytes("slot"@, o.slot@) + output_tail(o, r)))),
{
    reveal(output_bytes);
    let x1 = field_bytes("target"@);
    let x2 = output_target_bytes(o.target);
    let x3 = field_string_bytes("kind"@, o.kind@);
    let x4 = field_string_bytes("slot"@, o.slot@);
    let x5 = field_bytes("label"@);
    let x6 = option_label_bytes(o.label);
    let x7 = field_bytes("fields"@);
    let x8 = len_bytes(o.fields.entry_seq().len());
    let x9 = concat_map(o.fields.entry_seq(), output_field_entry_item());
    assert(output_bytes(o) == x1 + x2 + x3 + x4 + x5 + x6 + x7 + x8 + x9);
    assert(x1 + x2 + x3 + x4 + x5 + x6 + x7 + x8 + x9 + r =~= x1 + (x2 + (x3 + (x4 + (x5 + (x6 + (x7 + (x8 + (x9
        + r)))))))));
}

#[verifier::spinoff_prover]
proof fn lemma_output_tail_prefix(
    a: PresentationAffordanceOutputDefinition,
    b: PresentationAffordanceOutputDefinition,
    r1: Seq<u8>,
    r2: Seq<u8>,
)
    requires
        output_fits(a),
        output_fits(b),
        output_tail(a, r1) == output_tail(b, r2),
    ensures
        option_label_key(a.label) == option_label_key(b.label),
        a.fields.entry_seq().map_values(output_field_view()) == b.fields.entry_seq().map_values(output_field_view()),
        r1 == r2,
{
    let c1 = concat_map(a.fields.entry_seq(), output_field_entry_item()) + r1;
    let c2 = concat_map(b.fields.entry_seq(), output_field_entry_item()) + r2;
    let l1 = len_bytes(a.fields.entry_seq().len()) + c1;
    let l2 = len_bytes(b.fields.entry_seq().len()) + c2;
    let f1 = field_bytes("fields"@) + l1;
    let f2 = field_bytes("fields"@) + l2;
    let o1 = option_label_bytes(a.label) + f1;
    let o2 = option_label_bytes(b.label) + f2;
    lemma_same_prefix(field_bytes("label"@), o1, o2);
    lemma_option_label_prefix(a.label, b.label, f1, f2);
    lemma_same_prefix(field_bytes("fields"@), l1, l2);
    lemma_len_prefix(a.fields.entry_seq().len(), b.fields.entry_seq().len(), c1, c2);
    lemma_output_field_items();
    lemma_items_prefix(a.fields.entry_seq(), b.fields.entry_seq(), output_field_entry_item(), output_field_view(),
        output_field_ok(), r1, r2);
}

#[verifier::spinoff_prover]
proof fn lemma_output_prefix(
    a: PresentationAffordanceOutputDefinition,
    b: PresentationAffordanceOutputDefinition,
    r1: Seq<u8>,
    r2: Seq<u8>,
)
    requires
        output_fits(a),
        output_fits(b),
        output_bytes(a) + r1 == output_bytes(b) + r2,
    ensures
        output_key(a) == output_key(b),
        r1 == r2,
{
    lemma_output_bytes_split(a, r1);
    lemma_output_bytes_split(b, r2);
    let g1 = output_tail(a, r1);
    let g2 = output_tail(b, r2);
    let s1 = field_string_bytes("slot"@, a.slot@) + g1;
    let s2 = field_string_bytes("slot"@, b.slot@) + g2;
    let k1 = field_string_bytes("kind"@, a.kind@) + s1;
    let k2 = field_string_bytes("kind"@, b.kind@) + s2;
    let t1 = output_target_bytes(a.target) + k1;
    let t2 = output_target_bytes(b.target) + k2;
    lemma_same_prefix(field_bytes("target"@), t1, t2);
    lemma_output_target_prefix(a.target, b.target, k1, k2);
    lemma_field_string_prefix("kind"@, a.kind@, b.kind@, s1, s2);
    lemma_field_string_prefix("slot"@, a.slot@, b.slot@, g1, g2);
    lemma_output_tail_prefix(a, b, r1, r2);
}

/// What the encoding writes of an output entry.
pub open spec fn output_view() -> spec_fn((String, PresentationAffordanceOutputDefinition)) -> (
    Seq<char>,
    (
        ProjectionOutputTarget,
        Seq<char>,
        Seq<char>,
        Option<(Seq<char>, Seq<char>, Seq<(Seq<char>, (bool, Seq<char>), TypeRefView)>)>,
        Seq<(Seq<char>, (int, Seq<char>, (int, Seq<char>, i64, bool)), TypeRefView)>,
    ),
) {
    |e: (String, PresentationAffordanceOutputDefinition)| (e.0@, output_key(e.1))
}

/// An output entry's texts fit the encoding.
pub open spec fn output_ok() -> spec_fn((String, PresentationAffordanceOutputDefinition)) -> bool {
    |e: (String, PresentationAffordanceOutputDefinition)| fits(e.0@) && output_fits(e.1)
}

proof fn lemma_output_items()
    ensures
        prefix_free(output_entry_item(), output_view(), output_ok()),
{
    let f = output_entry_item();
    assert forall|x: (String, PresentationAffordanceOutputDefinition), y: (String, PresentationAffordanceOutputDefinition),
        r1: Seq<u8>, r2: Seq<u8>| output_ok()(x) && output_ok()(y) && #[trigger] (f(x) + r1) == #[trigger] (f(y) + r2) implies output_view()(
        x) == output_view()(y) && r1 == r2 by {
        let t1 = output_bytes(x.1) + r1;
        let t2 = output_bytes(y.1) + r2;
        assert(f(x) + r1 == entry_bytes(x.0@) + t1);
        assert(f(y) + r2 == entry_bytes(y.0@) + t2);
        lemma_entry_prefix(x.0@, y.0@, t1, t2);
        lemma_output_prefix(x.1, y.1, r1, r2);
    }
}

/// A projector's outputs are read back exactly.
pub proof fn lemma_outputs_prefix(
    a: StrMap<PresentationAffordanceOutputDefinition>,
    b: StrMap<PresentationAffordanceOutputDefinition>,
    r1: Seq<u8>,
    r2: Seq<u8>,
)
    requires
        section_fits(a, output_ok()),
        section_fits(b, output_ok()),
        outputs_bytes(a) + r1 == outputs_bytes(b) + r2,
    ensures
        a.entry_seq().map_values(output_view()) == b.entry_seq().map_values(output_view()),
        r1 == r2,
{
    reveal(outputs_bytes);
    let s1 = a.entry_seq();
    let s2 = b.entry_seq();
    let c1 = concat_map(s1, output_entry_item()) + r1;
    let c2 = concat_map(s2, output_entry_item()) + r2;
    assert(outputs_bytes(a) + r1 == field_bytes("outputs"@) + (len_bytes(s1.len()) + c1));
    assert(outputs_bytes(b) + r2 == field_bytes("outputs"@) + (len_bytes(s2.len()) + c2));
    lemma_same_prefix(field_bytes("outputs"@), len_bytes(s1.len()) + c1, len_bytes(s2.len()) + c2);
    lemma_len_prefix(s1.len(), s2.len(), c1, c2);
    lemma_output_items();
    lemma_items_prefix(s1, s2, output_entry_item(), output_view(), output_ok(), r1, r2);
}

/// What the encoding writes of a presentation projector: its name, candidate
/// selector, inputs, query calls and outputs.
pub open spec fn projector_view() -> spec_fn((String, SchemaPresentationProjectorDefinition)) -> (
    Seq<char>,
    (int, Seq<char>, MetadataTarget, Seq<Seq<char>>),
    Seq<(Seq<char>, (int, Seq<char>, MetadataOccurrence, (int, Seq<char>, i64, bool)), TypeRefView, bool)>,
    Seq<(Seq<char>, Seq<char>, Seq<(bool, Seq<char>)>)>,
    Seq<
        (
            Seq<char>,
            (
                ProjectionOutputTarget,
                Seq<char>,
                Seq<char>,
                Option<(Seq<char>, Seq<char>, Seq<(Seq<char>, (bool, Seq<char>), TypeRefView)>)>,
                Seq<(Seq<char>, (int, Seq<char>, (int, Seq<char>, i64, bool)), TypeRefView)>,
            ),
        ),
    >,
) {
    |e: (String, SchemaPresentationProjectorDefinition)|
        (
            e.0@,
            selector_view_of(e.1.candidates),
            e.1.inputs@.map_values(input_view()),
            e.1.queries.entry_seq().map_values(query_call_view()),
            e.1.outputs.entry_seq().map_values(output_view()),
        )
}

/// A presentation projector's texts fit the encoding.
pub open spec fn projector_ok() -> spec_fn((String, SchemaPresentationProjectorDefinition)) -> bool {
    |e: (String, SchemaPresentationProjectorDefinition)|
        fits(e.0@) && selector_fits(e.1.candidates) && inputs_fit(e.1.inputs@) && section_fits(
            e.1.queries,
            query_call_ok(),
        ) && section_fits(e.1.outputs, output_ok())
}

#[verifier::spinoff_prover]
proof fn lemma_projector_entry_prefix(
    x: (String, SchemaPresentationProjectorDefinition),
    y: (String, SchemaPresentationProjectorDefinition),
    r1: Seq<u8>,
    r2: Seq<u8>,
)
    requires
        projector_ok()(x),
        projector_ok()(y),
        projector_entry_item()(x) + r1 == projector_entry_item()(y) + r2,
    ensures
        projector_view()(x) == projector_view()(y),
        r1 == r2,
{
    let o1 = outputs_bytes(x.1.outputs) + r1;
    let o2 = outputs_bytes(y.1.outputs) + r2;
    let q1 = queries_bytes(x.1.queries) + o1;
    let q2 = queries_bytes(y.1.queries) + o2;
    let i1 = inputs_bytes(x.1.inputs@) + q1;
    let i2 = inputs_bytes(y.1.inputs@) + q2;
    let c1 = projection_selector_bytes(x.1.candidates) + i1;
    let c2 = projection_selector_bytes(y.1.candidates) + i2;
    let d1 = field_bytes("candidates"@) + c1;
    let d2 = field_bytes("candidates"@) + c2;
    assert(projector_entry_item()(x) + r1 =~= entry_bytes(x.0@) + d1);
    assert(projector_entry_item()(y) + r2 =~= entry_bytes(y.0@) + d2);
    lemma_entry_prefix(x.0@, y.0@, d1, d2);
    lemma_same_prefix(field_bytes("candidates"@), c1, c2);
    lemma_selector_bytes_prefix(x.1.candidates, y.1.candidates, i1, i2);
    lemma_inputs_prefix(x.1.inputs@, y.1.inputs@, q1, q2);
    lemma_queries_prefix(x.1.queries, y.1.queries, o1, o2);
    lemma_outputs_prefix(x.1.outputs, y.1.outputs, r1, r2);
}

/// The encoding of a presentation projector entry determines its name, its
/// candidate selector, its inputs, its query calls and its outputs, with
/// their labels and fields.
pub proof fn lemma_projector_entries_read_back()
    ensures
        prefix_free(projector_entry_item(), projector_view(), projector_ok()),
{
    let f = projector_entry_item();
    assert forall|x: (String, SchemaPresentationProjectorDefinition), y: (String, SchemaPresentationProjectorDefinition),
        r1: Seq<u8>, r2: Seq<u8>| projector_ok()(x) && projector_ok()(y) && #[trigger] (f(x) + r1) == #[trigger] (f(y)
        + r2) implies projector_view()(x) == projector_view()(y) && r1 == r2 by {
        lemma_projector_entry_prefix(x, y, r1, r2);
    }
}

/// Every entry of `m` satisfies `ok`, and `m` has fewer than 2^64 entries.
pub open spec fn section_fits<T>(m: StrMap<T>, ok: spec_fn((String, T)) -> bool) -> bool {
    &&& m.entry_seq().len() < 0x1_0000_0000_0000_0000
    &&& forall|i: int| 0 <= i < m.entry_seq().len() ==> ok(#[trigger] m.entry_seq()[i])
}

/// The encoding from the types section on.
pub open spec fn from_types(s: ProjectSchema) -> Seq<u8> {
    map_section_bytes("types"@, s.types, type_entry_item()) + from_registries(s)
}

/// The encoding from the registries section on.
pub open spec fn from_registries(s: ProjectSchema) -> Seq<u8> {
    map_section_bytes("registries"@, s.registries, registry_entry_item()) + from_speakers(s)
}

/// The encoding from the speakers section on.
pub open spec fn from_speakers(s: ProjectSchema) -> Seq<u8> {
    map_section_bytes("speakers"@, s.speakers, speaker_entry_item()) + from_conditions(s)
}

/// The encoding from the conditions section on.
pub open spec fn from_conditions(s: ProjectSchema) -> Seq<u8> {
    map_section_bytes("conditions"@, s.conditions, condition_entry_item()) + from_reasons(s)
}

/// The encoding from the availability reasons section on.
pub open spec fn from_reasons(s: ProjectSchema) -> Seq<u8> {
    map_section_bytes("availability_reasons"@, s.availability_reasons, reason_entry_item()) + from_effects(s)
}

/// The encoding from the effects section on.
pub open spec fn from_effects(s: ProjectSchema) -> Seq<u8> {
    map_section_bytes("effects"@, s.effects, effect_entry_item()) + from_domains(s)
}

/// The encoding from the metadata domains section on.
pub open spec fn from_domains(s: ProjectSchema) -> Seq<u8> {
    map_section_bytes("metadata_domains"@, s.metadata_domains, domain_entry_item()) + from_metadata(s)
}

/// The encoding from the metadata section on.
pub open spec fn from_metadata(s: ProjectSchema) -> Seq<u8> {
    map_section_bytes("metadata"@, s.metadata, metadata_entry_item()) + from_queries(s)
}

/// The encoding from the projection queries section on.
pub open spec fn from_queries(s: ProjectSchema) -> Seq<u8> {
    map_section_bytes("projection_queries"@, s.projection_queries, query_function_entry_item()) + from_projectors(s)
}

/// The encoding from the presentation projectors section on.
pub open spec fn from_projectors(s: ProjectSchema) -> Seq<u8> {
    map_section_bytes("presentation_projectors"@, s.presentation_projectors, projector_entry_item())
        + map_section_bytes("markup"@, s.markup, markup_entry_item())
}

proof fn lemma_regroup_head(h: Seq<u8>, f: Seq<u8>, u: Seq<u8>, x: Seq<u8>)
    ensures
        h + (f + u) + x == (h + f) + (u + x),
{
    assert(h + (f + u) + x =~= (h + f) + (u + x));
}

proof fn lemma_regroup_pair(x: Seq<u8>, j: Seq<u8>, k: Seq<u8>)
    ensures
        x + j + k == x + (j + k),
{
    assert(x + j + k =~= x + (j + k));
}

/// The encoding split at its sections.
proof fn lemma_schema_bytes_split(s: ProjectSchema)
    ensures
        schema_bytes(s) == (header_bytes() + field_bytes("schema_version"@)) + (u32_bytes(s.schema_version)
            + from_types(s)),
{
    reveal(field_u32_bytes);
    let h = header_bytes();
    let f = field_bytes("schema_version"@);
    let u = u32_bytes(s.schema_version);
    let t = map_section_bytes("types"@, s.types, type_entry_item());
    let g = map_section_bytes("registries"@, s.registries, registry_entry_item());
    let p = map_section_bytes("speakers"@, s.speakers, speaker_entry_item());
    let c = map_section_bytes("conditions"@, s.conditions, condition_entry_item());
    let r = map_section_bytes("availability_reasons"@, s.availability_reasons, reason_entry_item());
    let e = map_section_bytes("effects"@, s.effects, effect_entry_item());
    let d = map_section_bytes("metadata_domains"@, s.metadata_domains, domain_entry_item());
    let m = map_section_bytes("metadata"@, s.metadata, metadata_entry_item());
    let q = map_section_bytes("projection_queries"@, s.projection_queries, query_function_entry_item());
    let j = map_section_bytes("presentation_projectors"@, s.presentation_projectors, projector_entry_item());
    let k = map_section_bytes("markup"@, s.markup, markup_entry_item());
    let h0 = h + (f + u);
    assert(schema_bytes(s) == h0 + t + g + p + c + r + e + d + m + q + j + k);
    lemma_regroup_pair(h0 + t + g + p + c + r + e + d + m + q, j, k);
    lemma_regroup_pair(h0 + t + g + p + c + r + e + d + m, q, from_projectors(s));
    lemma_regroup_pair(h0 + t + g + p + c + r + e + d, m, from_queries(s));
    lemma_regroup_pair(h0 + t + g + p + c + r + e, d, from_metadata(s));
    lemma_regroup_pair(h0 + t + g + p + c + r, e, from_domains(s));
    lemma_regroup_pair(h0 + t + g + p + c, r, from_effects(s));
    lemma_regroup_pair(h0 + t + g + p, c, from_reasons(s));
    lemma_regroup_pair(h0 + t + g, p, from_conditions(s));
    lemma_regroup_pair(h0 + t, g, from_speakers(s));
    lemma_regroup_pair(h0, t, from_registries(s));
    lemma_regroup_head(h, f, u, from_types(s));
}

/// The sizes of a schema's texts and lists, for its encoding to be read back: every name, value, template and display name is
/// shorter than 2^64 UTF-8 bytes, and no list has 2^64 members.
pub open spec fn content_fits(s: ProjectSchema) -> bool {
    &&& section_fits(s.types, type_ok())
    &&& section_fits(s.registries, registry_ok())
    &&& section_fits(s.speakers, speaker_ok())
    &&& section_fits(s.conditions, condition_ok())
    &&& section_fits(s.availability_reasons, reason_ok())
    &&& section_fits(s.effects, effect_ok())
    &&& section_fits(s.metadata_domains, |e: (String, MetadataDomainDefinition)| fits(e.0@) && domain_fits(e.1))
    &&& section_fits(s.metadata, metadata_ok())
    &&& section_fits(s.projection_queries, query_function_ok())
    &&& section_fits(s.presentation_projectors, projector_ok())
    &&& section_fits(s.markup, |e: (String, MarkupDefinition)| fits(e.0@))
}

/// The canonical encoding determines the content it writes: two schemas with
/// the same canonical bytes have the same schema version and, entry for entry
/// and in the same order, the same types and enum values, registries and
/// values, speakers and display names, conditions, availability reasons,
/// effects, metadata domains, metadata keys, projection query functions,
/// presentation projectors and markup tags.
#[verifier::spinoff_prover]
pub proof fn lemma_canonical_bytes_determine_content(a: ProjectSchema, b: ProjectSchema)
    requires
        content_fits(a),
        content_fits(b),
        schema_bytes(a) == schema_bytes(b),
    ensures
        a.schema_version == b.schema_version,
        a.types.entry_seq().map_values(type_view()) == b.types.entry_seq().map_values(type_view()),
        a.registries.entry_seq().map_values(registry_view()) == b.registries.entry_seq().map_values(registry_view()),
        a.speakers.entry_seq().map_values(speaker_view()) == b.speakers.entry_seq().map_values(speaker_view()),
        a.conditions.entry_seq().map_values(condition_view()) == b.conditions.entry_seq().map_values(condition_view()),
        a.availability_reasons.entry_seq().map_values(reason_view()) == b.availability_reasons.entry_seq().map_values(
            reason_view(),
        ),
        a.effects.entry_seq().map_values(effect_view()) == b.effects.entry_seq().map_values(effect_view()),
        a.metadata_domains.entry_seq().map_values(|e: (String, MetadataDomainDefinition)| (e.0@, domain_content_view(e.1)))
            == b.metadata_domains.entry_seq().map_values(
            |e: (String, MetadataDomainDefinition)| (e.0@, domain_content_view(e.1)),
        ),
        a.metadata.entry_seq().map_values(metadata_view()) == b.metadata.entry_seq().map_values(metadata_view()),
        a.projection_queries.entry_seq().map_values(query_function_view()) == b.projection_queries.entry_seq().map_values(
            query_function_view(),
        ),
        a.presentation_projectors.entry_seq().map_values(projector_view()) == b.presentation_projectors.entry_seq().map_values(
            projector_view(),
        ),
        a.markup.entry_seq().map_values(markup_view()) == b.markup.entry_seq().map_values(markup_view()),
{
    lemma_schema_bytes_split(a);
    lemma_schema_bytes_split(b);
    let head = header_bytes() + field_bytes("schema_version"@);
    let ta = from_types(a);
    let tb = from_types(b);
    let ga = from_registries(a);
    let gb = from_registries(b);
    let pa = from_speakers(a);
    let pb = from_speakers(b);
    let ca = from_conditions(a);
    let cb = from_conditions(b);
    let ra = from_reasons(a);
    let rb = from_reasons(b);
    let ea = from_effects(a);
    let eb = from_effects(b);
    let da = from_domains(a);
    let db = from_domains(b);
    let ma = from_metadata(a);
    let mb = from_metadata(b);
    let qa = from_queries(a);
    let qb = from_queries(b);
    let ja = from_projectors(a);
    let jb = from_projectors(b);
    lemma_same_prefix(head, u32_bytes(a.schema_version) + ta, u32_bytes(b.schema_version) + tb);
    lemma_u32_prefix(a.schema_version, b.schema_version, ta, tb);
    lemma_type_items();
    lemma_registry_items();
    lemma_speaker_items();
    lemma_condition_entries_read_back();
    lemma_reason_entries_read_back();
    lemma_effect_entries_read_back();
    lemma_domain_entries_read_back();
    lemma_metadata_entries_read_back();
    lemma_query_function_entries_read_back();
    lemma_section_prefix("types"@, a.types, b.types, type_entry_item(), type_view(), type_ok(), ga, gb);
    lemma_section_prefix("registries"@, a.registries, b.registries, registry_entry_item(), registry_view(),
        registry_ok(), pa, pb);
    lemma_section_prefix("speakers"@, a.speakers, b.speakers, speaker_entry_item(), speaker_view(), speaker_ok(), ca,
        cb);
    lemma_section_prefix("conditions"@, a.conditions, b.conditions, condition_entry_item(), condition_view(),
        condition_ok(), ra, rb);
    lemma_section_prefix("availability_reasons"@, a.availability_reasons, b.availability_reasons, reason_entry_item(),
        reason_view(), reason_ok(), ea, eb);
    lemma_section_prefix("effects"@, a.effects, b.effects, effect_entry_item(), effect_view(), effect_ok(), da, db);
    lemma_section_prefix("metadata_domains"@, a.metadata_domains, b.metadata_domains, domain_entry_item(),
        |e: (String, MetadataDomainDefinition)| (e.0@, domain_content_view(e.1)),
        |e: (String, MetadataDomainDefinition)| fits(e.0@) && domain_fits(e.1), ma, mb);
    lemma_section_prefix("metadata"@, a.metadata, b.metadata, metadata_entry_item(), metadata_view(), metadata_ok(),
        qa, qb);
    lemma_section_prefix("projection_queries"@, a.projection_queries, b.projection_queries, query_function_entry_item(),
        query_function_view(), query_function_ok(), ja, jb);
    let ka = map_section_bytes("markup"@, a.markup, markup_entry_item());
    let kb = map_section_bytes("markup"@, b.markup, markup_entry_item());
    lemma_projector_entries_read_back();
    lemma_section_prefix("presentation_projectors"@, a.presentation_projectors, b.presentation_projectors,
        projector_entry_item(), projector_view(), projector_ok(), ka, kb);
    assert(ka + Seq::<u8>::empty() =~= kb + Seq::<u8>::empty());
    lemma_markup_entries_read_back();
    lemma_section_prefix("markup"@, a.markup, b.markup, markup_entry_item(), markup_view(), |e: (String, MarkupDefinition)|
        fits(e.0@), Seq::<u8>::empty(), Seq::<u8>::empty());
}

// ---------------------------------------------------------------------------
// Fields, flags and type references.

/// A flag is read back exactly.
pub proof fn lemma_bool_prefix(b1: bool, b2: bool, r1: Seq<u8>, r2: Seq<u8>)
    requires
        bool_bytes(b1) + r1 == bool_bytes(b2) + r2,
    ensures
        b1 == b2,
        r1 == r2,
{
    reveal(bool_bytes);
    reveal_strlit("true");
    reveal_strlit("false");
    lemma_short_fits("true"@);
    lemma_short_fits("false"@);
    let t1 = if b1 { "true"@ } else { "false"@ };
    let t2 = if b2 { "true"@ } else { "false"@ };
    lemma_str_prefix(t1, t2, r1, r2);
    if b1 != b2 {
        assert(t1.len() != t2.len());
    }
}

/// A named flag is read back exactly.
pub proof fn lemma_field_bool_prefix(name: Seq<char>, b1: bool, b2: bool, r1: Seq<u8>, r2: Seq<u8>)
    requires
        field_bool_bytes(name, b1) + r1 == field_bool_bytes(name, b2) + r2,
    ensures
        b1 == b2,
        r1 == r2,
{
    reveal(field_bool_bytes);
    assert(field_bool_bytes(name, b1) + r1 == field_bytes(name) + (bool_bytes(b1) + r1));
    assert(field_bool_bytes(name, b2) + r2 == field_bytes(name) + (bool_bytes(b2) + r2));
    lemma_same_prefix(field_bytes(name), bool_bytes(b1) + r1, bool_bytes(b2) + r2);
    lemma_bool_prefix(b1, b2, r1, r2);
}

/// A named text is read back exactly.
pub proof fn lemma_field_string_prefix(name: Seq<char>, v1: Seq<char>, v2: Seq<char>, r1: Seq<u8>, r2: Seq<u8>)
    requires
        fits(v1),
        fits(v2),
        field_string_bytes(name, v1) + r1 == field_string_bytes(name, v2) + r2,
    ensures
        v1 == v2,
        r1 == r2,
{
    reveal(field_string_bytes);
    assert(field_string_bytes(name, v1) + r1 == field_bytes(name) + (str_bytes(v1) + r1));
    assert(field_string_bytes(name, v2) + r2 == field_bytes(name) + (str_bytes(v2) + r2));
    lemma_same_prefix(field_bytes(name), str_bytes(v1) + r1, str_bytes(v2) + r2);
    lemma_str_prefix(v1, v2, r1, r2);
}

/// A named optional text is read back exactly.
pub proof fn lemma_field_option_prefix(
    name: Seq<char>,
    o1: Option<Seq<char>>,
    o2: Option<Seq<char>>,
    r1: Seq<u8>,
    r2: Seq<u8>,
)
    requires
        o1 matches Some(v) ==> fits(v),
        o2 matches Some(v) ==> fits(v),
        field_option_string_bytes(name, o1) + r1 == field_option_string_bytes(name, o2) + r2,
    ensures
        o1 == o2,
        r1 == r2,
{
    reveal(field_option_string_bytes);
    assert(field_option_string_bytes(name, o1) + r1 == field_bytes(name) + (option_string_bytes(o1) + r1));
    assert(field_option_string_bytes(name, o2) + r2 == field_bytes(name) + (option_string_bytes(o2) + r2));
    lemma_same_prefix(field_bytes(name), option_string_bytes(o1) + r1, option_string_bytes(o2) + r2);
    lemma_option_string_prefix(o1, o2, r1, r2);
}

/// The names inside a type reference fit the encoding.
pub open spec fn type_ref_fits(t: TypeRefView) -> bool
    decreases t,
{
    match t {
        TypeRefView::Enum(n) => fits(n),
        TypeRefView::Registry(n) => fits(n),
        TypeRefView::Array(inner) => type_ref_fits(*inner),
        _ => true,
    }
}

/// The word that opens a type reference's encoding.
pub open spec fn type_ref_word(t: TypeRefView) -> Seq<char> {
    match t {
        TypeRefView::String => "string"@,
        TypeRefView::Symbol => "symbol"@,
        TypeRefView::Int => "int"@,
        TypeRefView::Float => "float"@,
        TypeRefView::Bool => "bool"@,
        TypeRefView::Speaker => "speaker"@,
        TypeRefView::Enum(_) => "enum"@,
        TypeRefView::Registry(_) => "registry"@,
        TypeRefView::Array(_) => "array"@,
    }
}

#[verifier::spinoff_prover]
proof fn lemma_type_ref_words(t1: TypeRefView, t2: TypeRefView)
    requires
        type_ref_word(t1) == type_ref_word(t2),
    ensures
        t1 is String <==> t2 is String,
        t1 is Symbol <==> t2 is Symbol,
        t1 is Int <==> t2 is Int,
        t1 is Float <==> t2 is Float,
        t1 is Bool <==> t2 is Bool,
        t1 is Speaker <==> t2 is Speaker,
        t1 is Enum <==> t2 is Enum,
        t1 is Registry <==> t2 is Registry,
        t1 is Array <==> t2 is Array,
{
    reveal_strlit("string");
    reveal_strlit("symbol");
    reveal_strlit("int");
    reveal_strlit("float");
    reveal_strlit("bool");
    reveal_strlit("speaker");
    reveal_strlit("enum");
    reveal_strlit("registry");
    reveal_strlit("array");
    let w1 = type_ref_word(t1);
    let w2 = type_ref_word(t2);
    assert(w1.len() == w2.len() && w1[0] == w2[0] && w1[1] == w2[1]);
    assert("string"@[1] != "symbol"@[1] && "string"@[1] != "speaker"@[1] && "symbol"@[1] != "speaker"@[1]);
    assert("string"@.len() != "speaker"@.len() && "symbol"@.len() != "speaker"@.len());
}

/// A type reference is read back exactly.
pub proof fn lemma_type_ref_prefix(t1: TypeRefView, t2: TypeRefView, r1: Seq<u8>, r2: Seq<u8>)
    requires
        type_ref_fits(t1),
        type_ref_fits(t2),
        type_ref_bytes(t1) + r1 == type_ref_bytes(t2) + r2,
    ensures
        t1 == t2,
        r1 == r2,
    decreases t1,
{
    let w1 = type_ref_word(t1);
    let w2 = type_ref_word(t2);
    reveal_strlit("string");
    reveal_strlit("symbol");
    reveal_strlit("int");
    reveal_strlit("float");
    reveal_strlit("bool");
    reveal_strlit("speaker");
    reveal_strlit("enum");
    reveal_strlit("registry");
    reveal_strlit("array");
    lemma_short_fits(w1);
    lemma_short_fits(w2);
    let t1r = match t1 {
        TypeRefView::Enum(n) => str_bytes(n) + r1,
        TypeRefView::Registry(n) => str_bytes(n) + r1,
        TypeRefView::Array(inner) => type_ref_bytes(*inner) + r1,
        _ => r1,
    };
    let t2r = match t2 {
        TypeRefView::Enum(n) => str_bytes(n) + r2,
        TypeRefView::Registry(n) => str_bytes(n) + r2,
        TypeRefView::Array(inner) => type_ref_bytes(*inner) + r2,
        _ => r2,
    };
    assert(type_ref_bytes(t1) + r1 == str_bytes(w1) + t1r);
    assert(type_ref_bytes(t2) + r2 == str_bytes(w2) + t2r);
    lemma_str_prefix(w1, w2, t1r, t2r);
    lemma_type_ref_words(t1, t2);
    match t1 {
        TypeRefView::Enum(n) => {
            lemma_str_prefix(n, t2->Enum_0, r1, r2);
        },
        TypeRefView::Registry(n) => {
            lemma_str_prefix(n, t2->Registry_0, r1, r2);
        },
        TypeRefView::Array(inner) => {
            lemma_type_ref_prefix(*inner, *t2->Array_0, r1, r2);
        },
        _ => {},
    }
}

// ---------------------------------------------------------------------------
// Parameter lists and mode and target sets.

/// What the encoding writes of a parameter: its name and type.
pub open spec fn param_view_of() -> spec_fn(ParameterDefinition) -> (Seq<char>, TypeRefView) {
    |p: ParameterDefinition| (p.name@, p.type_ref@)
}

/// A parameter's texts fit the encoding.
pub open spec fn param_ok() -> spec_fn(ParameterDefinition) -> bool {
    |p: ParameterDefinition| fits(p.name@) && type_ref_fits(p.type_ref@)
}

/// A parameter list fits the encoding.
pub open spec fn params_fit(ps: Seq<ParameterDefinition>) -> bool {
    &&& ps.len() < 0x1_0000_0000_0000_0000
    &&& forall|i: int| 0 <= i < ps.len() ==> param_ok()(#[trigger] ps[i])
}

proof fn lemma_param_items()
    ensures
        prefix_free(param_item(), param_view_of(), param_ok()),
{
    let f = param_item();
    assert forall|x: ParameterDefinition, y: ParameterDefinition, r1: Seq<u8>, r2: Seq<u8>|
        param_ok()(x) && param_ok()(y) && #[trigger] (f(x) + r1) == #[trigger] (f(y) + r2) implies param_view_of()(x)
        == param_view_of()(y) && r1 == r2 by {
        let t1 = field_bytes("type"@) + (type_ref_bytes(x.type_ref@) + r1);
        let t2 = field_bytes("type"@) + (type_ref_bytes(y.type_ref@) + r2);
        assert(f(x) + r1 == entry_bytes(x.name@) + t1);
        assert(f(y) + r2 == entry_bytes(y.name@) + t2);
        lemma_entry_prefix(x.name@, y.name@, t1, t2);
        lemma_same_prefix(field_bytes("type"@), type_ref_bytes(x.type_ref@) + r1, type_ref_bytes(y.type_ref@) + r2);
        lemma_type_ref_prefix(x.type_ref@, y.type_ref@, r1, r2);
    }
}

/// A named parameter list is read back exactly: each parameter's name and type.
pub proof fn lemma_params_prefix(
    name: Seq<char>,
    p1: Seq<ParameterDefinition>,
    p2: Seq<ParameterDefinition>,
    r1: Seq<u8>,
    r2: Seq<u8>,
)
    requires
        params_fit(p1),
        params_fit(p2),
        params_bytes(name, p1) + r1 == params_bytes(name, p2) + r2,
    ensures
        p1.map_values(param_view_of()) == p2.map_values(param_view_of()),
        r1 == r2,
{
    reveal(params_bytes);
    let c1 = concat_map(p1, param_item()) + r1;
    let c2 = concat_map(p2, param_item()) + r2;
    assert(params_bytes(name, p1) + r1 == field_bytes(name) + (len_bytes(p1.len()) + c1));
    assert(params_bytes(name, p2) + r2 == field_bytes(name) + (len_bytes(p2.len()) + c2));
    lemma_same_prefix(field_bytes(name), len_bytes(p1.len()) + c1, len_bytes(p2.len()) + c2);
    lemma_len_prefix(p1.len(), p2.len(), c1, c2);
    lemma_param_items();
    lemma_items_prefix(p1, p2, param_item(), param_view_of(), param_ok(), r1, r2);
}

proof fn lemma_mode_items()
    ensures
        prefix_free(effect_mode_item(), |m: EffectMode| m, |m: EffectMode| true),
{
    reveal_strlit("deferred");
    reveal_strlit("immediate");
    reveal_strlit("blocking");
    let f = effect_mode_item();
    assert forall|x: EffectMode, y: EffectMode, r1: Seq<u8>, r2: Seq<u8>|
        #[trigger] (f(x) + r1) == #[trigger] (f(y) + r2) implies x == y && r1 == r2 by {
        lemma_short_fits(effect_mode_text(x));
        lemma_short_fits(effect_mode_text(y));
        lemma_str_prefix(effect_mode_text(x), effect_mode_text(y), r1, r2);
        assert(effect_mode_text(x)[0] == effect_mode_text(y)[0]);
    }
}

/// An effect mode set is read back exactly.
pub proof fn lemma_modes_prefix(name: Seq<char>, m1: EffectModeSet, m2: EffectModeSet, r1: Seq<u8>, r2: Seq<u8>)
    requires
        effect_modes_bytes(name, m1) + r1 == effect_modes_bytes(name, m2) + r2,
    ensures
        m1.members() == m2.members(),
        r1 == r2,
{
    reveal(effect_modes_bytes);
    let s1 = m1.members();
    let s2 = m2.members();
    let c1 = concat_map(s1, effect_mode_item()) + r1;
    let c2 = concat_map(s2, effect_mode_item()) + r2;
    assert(effect_modes_bytes(name, m1) + r1 == field_bytes(name) + (len_bytes(s1.len()) + c1));
    assert(effect_modes_bytes(name, m2) + r2 == field_bytes(name) + (len_bytes(s2.len()) + c2));
    lemma_same_prefix(field_bytes(name), len_bytes(s1.len()) + c1, len_bytes(s2.len()) + c2);
    lemma_len_prefix(s1.len(), s2.len(), c1, c2);
    lemma_mode_items();
    lemma_items_prefix(s1, s2, effect_mode_item(), |m: EffectMode| m, |m: EffectMode| true, r1, r2);
    assert(s1 =~= s1.map_values(|m: EffectMode| m));
    assert(s2 =~= s2.map_values(|m: EffectMode| m));
}

proof fn lemma_target_items()
    ensures
        prefix_free(metadata_target_item(), |t: MetadataTarget| t, |t: MetadataTarget| true),
{
    reveal_strlit("block");
    reveal_strlit("choice");
    reveal_strlit("line");
    reveal_strlit("project");
    let f = metadata_target_item();
    assert forall|x: MetadataTarget, y: MetadataTarget, r1: Seq<u8>, r2: Seq<u8>|
        #[trigger] (f(x) + r1) == #[trigger] (f(y) + r2) implies x == y && r1 == r2 by {
        lemma_short_fits(metadata_target_text(x));
        lemma_short_fits(metadata_target_text(y));
        lemma_str_prefix(metadata_target_text(x), metadata_target_text(y), r1, r2);
        assert(metadata_target_text(x)[0] == metadata_target_text(y)[0]);
        assert(metadata_target_text(x)[1] == metadata_target_text(y)[1]);
    }
}

/// A metadata target set is read back exactly.
pub proof fn lemma_targets_prefix(
    name: Seq<char>,
    m1: MetadataTargetSet,
    m2: MetadataTargetSet,
    r1: Seq<u8>,
    r2: Seq<u8>,
)
    requires
        metadata_targets_bytes(name, m1) + r1 == metadata_targets_bytes(name, m2) + r2,
    ensures
        m1.members() == m2.members(),
        r1 == r2,
{
    reveal(metadata_targets_bytes);
    let s1 = m1.members();
    let s2 = m2.members();
    let c1 = concat_map(s1, metadata_target_item()) + r1;
    let c2 = concat_map(s2, metadata_target_item()) + r2;
    assert(metadata_targets_bytes(name, m1) + r1 == field_bytes(name) + (len_bytes(s1.len()) + c1));
    assert(metadata_targets_bytes(name, m2) + r2 == field_bytes(name) + (len_bytes(s2.len()) + c2));
    lemma_same_prefix(field_bytes(name), len_bytes(s1.len()) + c1, len_bytes(s2.len()) + c2);
    lemma_len_prefix(s1.len(), s2.len(), c1, c2);
    lemma_target_items();
    lemma_items_prefix(s1, s2, metadata_target_item(), |t: MetadataTarget| t, |t: MetadataTarget| true, r1, r2);
    assert(s1 =~= s1.map_values(|t: MetadataTarget| t));
    assert(s2 =~= s2.map_values(|t: MetadataTarget| t));
}

// ---------------------------------------------------------------------------
// Entries of the later sections.

/// What the encoding writes of a markup tag: its name and three flags.
pub open spec fn markup_view() -> spec_fn((String, MarkupDefinition)) -> (Seq<char>, bool, bool, bool) {
    |e: (String, MarkupDefinition)| (e.0@, e.1.requires_closing, e.1.translatable, e.1.allows_nesting)
}

/// The encoding of a markup entry determines the tag's name and its
/// `requires_closing`, `translatable` and `allows_nesting` flags.
pub proof fn lemma_markup_entries_read_back()
    ensures
        prefix_free(markup_entry_item(), markup_view(), |e: (String, MarkupDefinition)| fits(e.0@)),
{
    let f = markup_entry_item();
    assert forall|x: (String, MarkupDefinition), y: (String, MarkupDefinition), r1: Seq<u8>, r2: Seq<u8>|
        fits(x.0@) && fits(y.0@) && #[trigger] (f(x) + r1) == #[trigger] (f(y) + r2) implies markup_view()(x)
        == markup_view()(y) && r1 == r2 by {
        let a1 = field_bool_bytes("allows_nesting"@, x.1.allows_nesting) + r1;
        let a2 = field_bool_bytes("allows_nesting"@, y.1.allows_nesting) + r2;
        let b1 = field_bool_bytes("translatable"@, x.1.translatable) + a1;
        let b2 = field_bool_bytes("translatable"@, y.1.translatable) + a2;
        let c1 = field_bool_bytes("requires_closing"@, x.1.requires_closing) + b1;
        let c2 = field_bool_bytes("requires_closing"@, y.1.requires_closing) + b2;
        assert(f(x) + r1 =~= entry_bytes(x.0@) + c1);
        assert(f(y) + r2 =~= entry_bytes(y.0@) + c2);
        lemma_entry_prefix(x.0@, y.0@, c1, c2);
        lemma_field_bool_prefix("requires_closing"@, x.1.requires_closing, y.1.requires_closing, b1, b2);
        lemma_field_bool_prefix("translatable"@, x.1.translatable, y.1.translatable, a1, a2);
        lemma_field_bool_prefix("allows_nesting"@, x.1.allows_nesting, y.1.allows_nesting, r1, r2);
    }
}

/// What the encoding writes of an availability reason: its id, template and
/// parameters.
pub open spec fn reason_view() -> spec_fn((String, AvailabilityReasonDefinition)) -> (
    Seq<char>,
    Seq<char>,
    Seq<(Seq<char>, TypeRefView)>,
) {
    |e: (String, AvailabilityReasonDefinition)| (e.0@, e.1.template@, e.1.params@.map_values(param_view_of()))
}

/// An availability reason's texts fit the encoding.
pub open spec fn reason_ok() -> spec_fn((String, AvailabilityReasonDefinition)) -> bool {
    |e: (String, AvailabilityReasonDefinition)| fits(e.0@) && fits(e.1.template@) && params_fit(e.1.params@)
}

/// The encoding of an availability reason entry determines its id, its
/// template and each parameter's name and type.
pub proof fn lemma_reason_entries_read_back()
    ensures
        prefix_free(reason_entry_item(), reason_view(), reason_ok()),
{
    let f = reason_entry_item();
    assert forall|x: (String, AvailabilityReasonDefinition), y: (String, AvailabilityReasonDefinition), r1: Seq<u8>,
        r2: Seq<u8>| reason_ok()(x) && reason_ok()(y) && #[trigger] (f(x) + r1) == #[trigger] (f(y) + r2) implies reason_view()(
        x) == reason_view()(y) && r1 == r2 by {
        let a1 = params_bytes("params"@, x.1.params@) + r1;
        let a2 = params_bytes("params"@, y.1.params@) + r2;
        let b1 = field_string_bytes("template"@, x.1.template@) + a1;
        let b2 = field_string_bytes("template"@, y.1.template@) + a2;
        assert(f(x) + r1 =~= entry_bytes(x.0@) + b1);
        assert(f(y) + r2 =~= entry_bytes(y.0@) + b2);
        lemma_entry_prefix(x.0@, y.0@, b1, b2);
        lemma_field_string_prefix("template"@, x.1.template@, y.1.template@, a1, a2);
        lemma_params_prefix("params"@, x.1.params@, y.1.params@, r1, r2);
    }
}

/// What the encoding writes of an effect: its name, modes and parameters.
pub open spec fn effect_view() -> spec_fn((String, EffectDefinition)) -> (
    Seq<char>,
    Seq<EffectMode>,
    Seq<(Seq<char>, TypeRefView)>,
) {
    |e: (String, EffectDefinition)| (e.0@, e.1.modes.members(), e.1.params@.map_values(param_view_of()))
}

/// An effect's texts fit the encoding.
pub open spec fn effect_ok() -> spec_fn((String, EffectDefinition)) -> bool {
    |e: (String, EffectDefinition)| fits(e.0@) && params_fit(e.1.params@)
}

/// The encoding of an effect entry determines its name, its modes and each
/// parameter's name and type.
pub proof fn lemma_effect_entries_read_back()
    ensures
        prefix_free(effect_entry_item(), effect_view(), effect_ok()),
{
    let f = effect_entry_item();
    assert forall|x: (String, EffectDefinition), y: (String, EffectDefinition), r1: Seq<u8>, r2: Seq<u8>|
        effect_ok()(x) && effect_ok()(y) && #[trigger] (f(x) + r1) == #[trigger] (f(y) + r2) implies effect_view()(x)
        == effect_view()(y) && r1 == r2 by {
        let a1 = params_bytes("params"@, x.1.params@) + r1;
        let a2 = params_bytes("params"@, y.1.params@) + r2;
        let b1 = effect_modes_bytes("modes"@, x.1.modes) + a1;
        let b2 = effect_modes_bytes("modes"@, y.1.modes) + a2;
        assert(f(x) + r1 =~= entry_bytes(x.0@) + b1);
        assert(f(y) + r2 =~= entry_bytes(y.0@) + b2);
        lemma_entry_prefix(x.0@, y.0@, b1, b2);
        lemma_modes_prefix("modes"@, x.1.modes, y.1.modes, a1, a2);
        lemma_params_prefix("params"@, x.1.params@, y.1.params@, r1, r2);
    }
}

/// What the encoding writes of a metadata key: its name, targets, type,
/// repeatability and domain.
pub open spec fn metadata_view() -> spec_fn((String, MetadataDefinition)) -> (
    Seq<char>,
    Seq<MetadataTarget>,
    TypeRefView,
    bool,
    Option<Seq<char>>,
) {
    |e: (String, MetadataDefinition)| (e.0@, e.1.targets.members(), e.1.type_ref@, e.1.repeatable, opt_text(e.1.domain))
}

/// A metadata key's texts fit the encoding.
pub open spec fn metadata_ok() -> spec_fn((String, MetadataDefinition)) -> bool {
    |e: (String, MetadataDefinition)| fits(e.0@) && type_ref_fits(e.1.type_ref@) && (opt_text(e.1.domain) matches Some(
        d,
    ) ==> fits(d))
}

#[verifier::spinoff_prover]
proof fn lemma_metadata_entry_prefix(
    x: (String, MetadataDefinition),
    y: (String, MetadataDefinition),
    r1: Seq<u8>,
    r2: Seq<u8>,
)
    requires
        metadata_ok()(x),
        metadata_ok()(y),
        metadata_entry_item()(x) + r1 == metadata_entry_item()(y) + r2,
    ensures
        metadata_view()(x) == metadata_view()(y),
        r1 == r2,
{
    let a1 = field_option_string_bytes("domain"@, opt_text(x.1.domain)) + r1;
    let a2 = field_option_string_bytes("domain"@, opt_text(y.1.domain)) + r2;
    let b1 = field_bool_bytes("repeatable"@, x.1.repeatable) + a1;
    let b2 = field_bool_bytes("repeatable"@, y.1.repeatable) + a2;
    let c1 = type_ref_bytes(x.1.type_ref@) + b1;
    let c2 = type_ref_bytes(y.1.type_ref@) + b2;
    let t1 = field_bytes("type"@) + c1;
    let t2 = field_bytes("type"@) + c2;
    let d1 = metadata_targets_bytes("targets"@, x.1.targets) + t1;
    let d2 = metadata_targets_bytes("targets"@, y.1.targets) + t2;
    assert(metadata_entry_item()(x) + r1 =~= entry_bytes(x.0@) + d1);
    assert(metadata_entry_item()(y) + r2 =~= entry_bytes(y.0@) + d2);
    lemma_entry_prefix(x.0@, y.0@, d1, d2);
    lemma_targets_prefix("targets"@, x.1.targets, y.1.targets, t1, t2);
    lemma_same_prefix(field_bytes("type"@), c1, c2);
    lemma_type_ref_prefix(x.1.type_ref@, y.1.type_ref@, b1, b2);
    lemma_field_bool_prefix("repeatable"@, x.1.repeatable, y.1.repeatable, a1, a2);
    lemma_field_option_prefix("domain"@, opt_text(x.1.domain), opt_text(y.1.domain), r1, r2);
}

/// The encoding of a metadata entry determines its name, targets, type,
/// repeatability and domain.
pub proof fn lemma_metadata_entries_read_back()
    ensures
        prefix_free(metadata_entry_item(), metadata_view(), metadata_ok()),
{
    let f = metadata_entry_item();
    assert forall|x: (String, MetadataDefinition), y: (String, MetadataDefinition), r1: Seq<u8>, r2: Seq<u8>|
        metadata_ok()(x) && metadata_ok()(y) && #[trigger] (f(x) + r1) == #[trigger] (f(y) + r2) implies metadata_view()(
        x) == metadata_view()(y) && r1 == r2 by {
        lemma_metadata_entry_prefix(x, y, r1, r2);
    }
}

/// A call limit is read back exactly.
pub proof fn lemma_max_calls_prefix(m1: Option<u32>, m2: Option<u32>, r1: Seq<u8>, r2: Seq<u8>)
    requires
        max_calls_bytes(m1) + r1 == max_calls_bytes(m2) + r2,
    ensures
        m1 == m2,
        r1 == r2,
{
    reveal(max_calls_bytes);
    reveal_strlit("some");
    reveal_strlit("none");
    lemma_short_fits("some"@);
    lemma_short_fits("none"@);
    let t1 = match m1 {
        Some(v) => u32_bytes(v) + r1,
        None => r1,
    };
    let t2 = match m2 {
        Some(v) => u32_bytes(v) + r2,
        None => r2,
    };
    let w1 = if m1 is Some { "some"@ } else { "none"@ };
    let w2 = if m2 is Some { "some"@ } else { "none"@ };
    assert(max_calls_bytes(m1) + r1 == str_bytes(w1) + t1);
    assert(max_calls_bytes(m2) + r2 == str_bytes(w2) + t2);
    lemma_str_prefix(w1, w2, t1, t2);
    assert(w1[0] == w2[0]);
    if m1 is Some {
        lemma_u32_prefix(m1->0, m2->0, r1, r2);
    }
}

/// What the encoding writes of a projection query function: its name,
/// parameters, return type and call limit.
pub open spec fn query_function_view() -> spec_fn((String, ProjectionQueryFunctionDefinition)) -> (
    Seq<char>,
    Seq<(Seq<char>, TypeRefView)>,
    TypeRefView,
    Option<u32>,
) {
    |e: (String, ProjectionQueryFunctionDefinition)|
        (e.0@, e.1.params@.map_values(param_view_of()), e.1.returns@, e.1.max_calls_per_event)
}

/// A query function's texts fit the encoding.
pub open spec fn query_function_ok() -> spec_fn((String, ProjectionQueryFunctionDefinition)) -> bool {
    |e: (String, ProjectionQueryFunctionDefinition)| fits(e.0@) && params_fit(e.1.params@) && type_ref_fits(
        e.1.returns@,
    )
}

#[verifier::spinoff_prover]
proof fn lemma_query_function_entry_prefix(
    x: (String, ProjectionQueryFunctionDefinition),
    y: (String, ProjectionQueryFunctionDefinition),
    r1: Seq<u8>,
    r2: Seq<u8>,
)
    requires
        query_function_ok()(x),
        query_function_ok()(y),
        query_function_entry_item()(x) + r1 == query_function_entry_item()(y) + r2,
    ensures
        query_function_view()(x) == query_function_view()(y),
        r1 == r2,
{
    let a1 = max_calls_bytes(x.1.max_calls_per_event) + r1;
    let a2 = max_calls_bytes(y.1.max_calls_per_event) + r2;
    let b1 = field_bytes("max_calls_per_event"@) + a1;
    let b2 = field_bytes("max_calls_per_event"@) + a2;
    let c1 = type_ref_bytes(x.1.returns@) + b1;
    let c2 = type_ref_bytes(y.1.returns@) + b2;
    let d1 = field_bytes("returns"@) + c1;
    let d2 = field_bytes("returns"@) + c2;
    let e1 = params_bytes("params"@, x.1.params@) + d1;
    let e2 = params_bytes("params"@, y.1.params@) + d2;
    assert(query_function_entry_item()(x) + r1 =~= entry_bytes(x.0@) + e1);
    assert(query_function_entry_item()(y) + r2 =~= entry_bytes(y.0@) + e2);
    lemma_entry_prefix(x.0@, y.0@, e1, e2);
    lemma_params_prefix("params"@, x.1.params@, y.1.params@, d1, d2);
    lemma_same_prefix(field_bytes("returns"@), c1, c2);
    lemma_type_ref_prefix(x.1.returns@, y.1.returns@, b1, b2);
    lemma_same_prefix(field_bytes("max_calls_per_event"@), a1, a2);
    lemma_max_calls_prefix(x.1.max_calls_per_event, y.1.max_calls_per_event, r1, r2);
}

/// The encoding of a projection query function entry determines its name,
/// each parameter's name and type, its return type and its call limit.
pub proof fn lemma_query_function_entries_read_back()
    ensures
        prefix_free(query_function_entry_item(), query_function_view(), query_function_ok()),
{
    let f = query_function_entry_item();
    assert forall|x: (String, ProjectionQueryFunctionDefinition), y: (String, ProjectionQueryFunctionDefinition),
        r1: Seq<u8>, r2: Seq<u8>| query_function_ok()(x) && query_function_ok()(y) && #[trigger] (f(x) + r1)
        == #[trigger] (f(y) + r2) implies query_function_view()(x) == query_function_view()(y) && r1 == r2 by {
        lemma_query_function_entry_prefix(x, y, r1, r2);
    }
}

/// A context selector is read back exactly.
pub proof fn lemma_selector_prefix(
    s1: MetadataContextSelector,
    s2: MetadataContextSelector,
    r1: Seq<u8>,
    r2: Seq<u8>,
)
    requires
        s1 matches MetadataContextSelector::MetadataKey(k) ==> fits(k@),
        s2 matches MetadataContextSelector::MetadataKey(k) ==> fits(k@),
        context_selector_bytes(s1) + r1 == context_selector_bytes(s2) + r2,
    ensures
        selector_key(s1) == selector_key(s2),
        r1 == r2,
{
    reveal(context_selector_bytes);
    reveal_strlit("field:speaker");
    reveal_strlit("metadata");
    lemma_short_fits("field:speaker"@);
    lemma_short_fits("metadata"@);
    let w1 = if s1 is FieldSpeaker { "field:speaker"@ } else { "metadata"@ };
    let w2 = if s2 is FieldSpeaker { "field:speaker"@ } else { "metadata"@ };
    let t1 = match s1 {
        MetadataContextSelector::MetadataKey(k) => str_bytes(k@) + r1,
        _ => r1,
    };
    let t2 = match s2 {
        MetadataContextSelector::MetadataKey(k) => str_bytes(k@) + r2,
        _ => r2,
    };
    assert(context_selector_bytes(s1) + r1 == str_bytes(w1) + t1);
    assert(context_selector_bytes(s2) + r2 == str_bytes(w2) + t2);
    lemma_str_prefix(w1, w2, t1, t2);
    assert(w1[0] == w2[0]);
    if let MetadataContextSelector::MetadataKey(k) = s1 {
        lemma_str_prefix(k@, s2->MetadataKey_0@, r1, r2);
    }
}

/// What a context selector says: `None` for the speaker field, else the key.
pub open spec fn selector_key(s: MetadataContextSelector) -> Option<Seq<char>> {
    match s {
        MetadataContextSelector::FieldSpeaker => None,
        MetadataContextSelector::MetadataKey(k) => Some(k@),
    }
}

/// What a missing-context policy says: its kind and fallback domain.
pub open spec fn policy_key(p: MissingMetadataContextPolicy) -> (int, Seq<char>) {
    match p {
        MissingMetadataContextPolicy::Diagnostic => (0, Seq::empty()),
        MissingMetadataContextPolicy::Empty => (1, Seq::empty()),
        MissingMetadataContextPolicy::Fallback { domain } => (2, domain@),
    }
}

/// A missing-context policy is read back exactly.
pub proof fn lemma_policy_prefix(
    p1: MissingMetadataContextPolicy,
    p2: MissingMetadataContextPolicy,
    r1: Seq<u8>,
    r2: Seq<u8>,
)
    requires
        p1 matches MissingMetadataContextPolicy::Fallback { domain } ==> fits(domain@),
        p2 matches MissingMetadataContextPolicy::Fallback { domain } ==> fits(domain@),
        missing_policy_bytes(p1) + r1 == missing_policy_bytes(p2) + r2,
    ensures
        policy_key(p1) == policy_key(p2),
        r1 == r2,
{
    reveal(missing_policy_bytes);
    reveal_strlit("diagnostic");
    reveal_strlit("empty");
    reveal_strlit("fallback");
    let w1 = match p1 {
        MissingMetadataContextPolicy::Diagnostic => "diagnostic"@,
        MissingMetadataContextPolicy::Empty => "empty"@,
        MissingMetadataContextPolicy::Fallback { .. } => "fallback"@,
    };
    let w2 = match p2 {
        MissingMetadataContextPolicy::Diagnostic => "diagnostic"@,
        MissingMetadataContextPolicy::Empty => "empty"@,
        MissingMetadataContextPolicy::Fallback { .. } => "fallback"@,
    };
    lemma_short_fits(w1);
    lemma_short_fits(w2);
    let t1 = match p1 {
        MissingMetadataContextPolicy::Fallback { domain } => str_bytes(domain@) + r1,
        _ => r1,
    };
    let t2 = match p2 {
        MissingMetadataContextPolicy::Fallback { domain } => str_bytes(domain@) + r2,
        _ => r2,
    };
    assert(missing_policy_bytes(p1) + r1 == str_bytes(w1) + t1);
    assert(missing_policy_bytes(p2) + r2 == str_bytes(w2) + t2);
    lemma_str_prefix(w1, w2, t1, t2);
    assert(w1[0] == w2[0]);
    if let MissingMetadataContextPolicy::Fallback { domain } = p1 {
        lemma_str_prefix(domain@, p2->Fallback_domain@, r1, r2);
    }
}

/// What the encoding writes of a context's values: the context and its values.
pub open spec fn context_values_view() -> spec_fn((String, StrSet)) -> (Seq<char>, Seq<Seq<char>>) {
    |e: (String, StrSet)| (e.0@, e.1.elems())
}

/// A context's texts fit the encoding.
pub open spec fn context_values_ok() -> spec_fn((String, StrSet)) -> bool {
    |e: (String, StrSet)| fits(e.0@) && set_fits(e.1)
}

proof fn lemma_context_values_items()
    ensures
        prefix_free(context_values_item(), context_values_view(), context_values_ok()),
{
    let f = context_values_item();
    assert forall|x: (String, StrSet), y: (String, StrSet), r1: Seq<u8>, r2: Seq<u8>|
        context_values_ok()(x) && context_values_ok()(y) && #[trigger] (f(x) + r1) == #[trigger] (f(y) + r2) implies context_values_view()(
        x) == context_values_view()(y) && r1 == r2 by {
        let t1 = string_set_bytes("values"@, x.1) + r1;
        let t2 = string_set_bytes("values"@, y.1) + r2;
        assert(f(x) + r1 == entry_bytes(x.0@) + t1);
        assert(f(y) + r2 == entry_bytes(y.0@) + t2);
        lemma_entry_prefix(x.0@, y.0@, t1, t2);
        lemma_string_set_prefix("values"@, x.1, y.1, r1, r2);
    }
}

/// What the encoding writes of a metadata domain: flat or contextual; a flat
/// domain's values; a contextual domain's selector, values by context and
/// missing-context policy.
pub open spec fn domain_content_view(d: MetadataDomainDefinition) -> (
    bool,
    Seq<Seq<char>>,
    Option<Seq<char>>,
    Seq<(Seq<char>, Seq<Seq<char>>)>,
    (int, Seq<char>),
) {
    match d {
        MetadataDomainDefinition::Flat(f) => (true, f.values.elems(), None, Seq::empty(), (0, Seq::empty())),
        MetadataDomainDefinition::Contextual(c) => (
            false,
            Seq::empty(),
            selector_key(c.selector),
            c.values_by_context.entry_seq().map_values(context_values_view()),
            policy_key(c.missing_context),
        ),
    }
}

/// A metadata domain's texts fit the encoding.
pub open spec fn domain_fits(d: MetadataDomainDefinition) -> bool {
    match d {
        MetadataDomainDefinition::Flat(f) => set_fits(f.values),
        MetadataDomainDefinition::Contextual(c) => {
            &&& (c.selector matches MetadataContextSelector::MetadataKey(k) ==> fits(k@))
            &&& section_fits(c.values_by_context, context_values_ok())
            &&& (c.missing_context matches MissingMetadataContextPolicy::Fallback { domain } ==> fits(domain@))
        },
    }
}

/// What a contextual domain's encoding writes after its kind.
pub open spec fn contextual_tail(c: ContextualMetadataDomain) -> Seq<u8> {
    field_bytes("selector"@) + context_selector_bytes(c.selector) + field_bytes("values_by_context"@) + len_bytes(
        c.values_by_context.entry_seq().len(),
    ) + concat_map(c.values_by_context.entry_seq(), context_values_item()) + field_bytes("missing_context"@)
        + missing_policy_bytes(c.missing_context)
}

#[verifier::spinoff_prover]
proof fn lemma_contextual_tail_prefix(
    c: ContextualMetadataDomain,
    c2: ContextualMetadataDomain,
    r1: Seq<u8>,
    r2: Seq<u8>,
)
    requires
        domain_fits(MetadataDomainDefinition::Contextual(c)),
        domain_fits(MetadataDomainDefinition::Contextual(c2)),
        contextual_tail(c) + r1 == contextual_tail(c2) + r2,
    ensures
        selector_key(c.selector) == selector_key(c2.selector),
        c.values_by_context.entry_seq().map_values(context_values_view()) == c2.values_by_context.entry_seq().map_values(
            context_values_view(),
        ),
        policy_key(c.missing_context) == policy_key(c2.missing_context),
        r1 == r2,
{
    let p1 = missing_policy_bytes(c.missing_context) + r1;
    let p2 = missing_policy_bytes(c2.missing_context) + r2;
    let m1 = field_bytes("missing_context"@) + p1;
    let m2 = field_bytes("missing_context"@) + p2;
    let v1 = concat_map(c.values_by_context.entry_seq(), context_values_item()) + m1;
    let v2 = concat_map(c2.values_by_context.entry_seq(), context_values_item()) + m2;
    let l1 = len_bytes(c.values_by_context.entry_seq().len()) + v1;
    let l2 = len_bytes(c2.values_by_context.entry_seq().len()) + v2;
    let q1 = field_bytes("values_by_context"@) + l1;
    let q2 = field_bytes("values_by_context"@) + l2;
    let s1 = context_selector_bytes(c.selector) + q1;
    let s2 = context_selector_bytes(c2.selector) + q2;
    assert(contextual_tail(c) + r1 =~= field_bytes("selector"@) + s1);
    assert(contextual_tail(c2) + r2 =~= field_bytes("selector"@) + s2);
    lemma_same_prefix(field_bytes("selector"@), s1, s2);
    lemma_selector_prefix(c.selector, c2.selector, q1, q2);
    lemma_same_prefix(field_bytes("values_by_context"@), l1, l2);
    lemma_len_prefix(c.values_by_context.entry_seq().len(), c2.values_by_context.entry_seq().len(), v1, v2);
    lemma_context_values_items();
    lemma_items_prefix(c.values_by_context.entry_seq(), c2.values_by_context.entry_seq(), context_values_item(),
        context_values_view(), context_values_ok(), m1, m2);
    lemma_same_prefix(field_bytes("missing_context"@), p1, p2);
    lemma_policy_prefix(c.missing_context, c2.missing_context, r1, r2);
}

#[verifier::spinoff_prover]
proof fn lemma_domain_bytes_prefix(d1: MetadataDomainDefinition, d2: MetadataDomainDefinition, r1: Seq<u8>, r2: Seq<u8>)
    requires
        domain_fits(d1),
        domain_fits(d2),
        domain_bytes(d1) + r1 == domain_bytes(d2) + r2,
    ensures
        domain_content_view(d1) == domain_content_view(d2),
        r1 == r2,
{
    reveal(domain_bytes);
    reveal_strlit("flat");
    reveal_strlit("contextual");
    lemma_short_fits("flat"@);
    lemma_short_fits("contextual"@);
    let k1 = if d1 is Flat { "flat"@ } else { "contextual"@ };
    let k2 = if d2 is Flat { "flat"@ } else { "contextual"@ };
    let t1 = match d1 {
        MetadataDomainDefinition::Flat(f) => string_set_bytes("values"@, f.values) + r1,
        MetadataDomainDefinition::Contextual(c) => contextual_tail(c) + r1,
    };
    let t2 = match d2 {
        MetadataDomainDefinition::Flat(f) => string_set_bytes("values"@, f.values) + r2,
        MetadataDomainDefinition::Contextual(c) => contextual_tail(c) + r2,
    };
    assert(domain_bytes(d1) + r1 =~= field_string_bytes("kind"@, k1) + t1);
    assert(domain_bytes(d2) + r2 =~= field_string_bytes("kind"@, k2) + t2);
    lemma_field_string_prefix("kind"@, k1, k2, t1, t2);
    assert(k1.len() == k2.len());
    match d1 {
        MetadataDomainDefinition::Flat(f) => {
            lemma_string_set_prefix("values"@, f.values, d2->Flat_0.values, r1, r2);
        },
        MetadataDomainDefinition::Contextual(c) => {
            lemma_contextual_tail_prefix(c, d2->Contextual_0, r1, r2);
        },
    }
}

/// The encoding of a metadata domain entry determines its name, whether it
/// is flat or contextual, a flat domain's values, and a contextual domain's
/// selector, values by context and missing-context policy.
pub proof fn lemma_domain_entries_read_back()
    ensures
        prefix_free(
            domain_entry_item(),
            |e: (String, MetadataDomainDefinition)| (e.0@, domain_content_view(e.1)),
            |e: (String, MetadataDomainDefinition)| fits(e.0@) && domain_fits(e.1),
        ),
{
    let f = domain_entry_item();
    assert forall|x: (String, MetadataDomainDefinition), y: (String, MetadataDomainDefinition), r1: Seq<u8>, r2: Seq<u8>|
        fits(x.0@) && domain_fits(x.1) && fits(y.0@) && domain_fits(y.1) && #[trigger] (f(x) + r1) == #[trigger] (f(y)
        + r2) implies (x.0@, domain_content_view(x.1)) == (y.0@, domain_content_view(y.1)) && r1 == r2 by {
        let t1 = domain_bytes(x.1) + r1;
        let t2 = domain_bytes(y.1) + r2;
        assert(f(x) + r1 == entry_bytes(x.0@) + t1);
        assert(f(y) + r2 == entry_bytes(y.0@) + t2);
        lemma_entry_prefix(x.0@, y.0@, t1, t2);
        lemma_domain_bytes_prefix(x.1, y.1, r1, r2);
    }
}

// ---------------------------------------------------------------------------
// Conditions.

/// What a literal says: its kind, its text (strings and floats), its number
/// and its flag.
pub open spec fn literal_key(v: SchemaLiteralValue) -> (int, Seq<char>, i64, bool) {
    match v {
        SchemaLiteralValue::String(t) => (0, t@, 0, false),
        SchemaLiteralValue::Int(i) => (1, Seq::empty(), i, false),
        SchemaLiteralValue::Float(t) => (2, t@, 0, false),
        SchemaLiteralValue::Bool(b) => (3, Seq::empty(), 0, b),
    }
}

/// A literal's text fits the encoding.
pub open spec fn literal_fits(v: SchemaLiteralValue) -> bool {
    match v {
        SchemaLiteralValue::String(t) => fits(t@),
        SchemaLiteralValue::Float(t) => fits(t@),
        _ => true,
    }
}

proof fn lemma_i64_cast_injective(a: i64, b: i64)
    requires
        a as u64 == b as u64,
    ensures
        a == b,
{
    assert(a as u64 == b as u64 ==> a == b) by (bit_vector);
}

/// A literal is read back exactly.
pub proof fn lemma_literal_prefix(v1: SchemaLiteralValue, v2: SchemaLiteralValue, r1: Seq<u8>, r2: Seq<u8>)
    requires
        literal_fits(v1),
        literal_fits(v2),
        literal_bytes(v1) + r1 == literal_bytes(v2) + r2,
    ensures
        literal_key(v1) == literal_key(v2),
        r1 == r2,
{
    reveal(literal_bytes);
    reveal_strlit("string");
    reveal_strlit("int");
    reveal_strlit("float");
    reveal_strlit("bool");
    let w1 = match v1 {
        SchemaLiteralValue::String(_) => "string"@,
        SchemaLiteralValue::Int(_) => "int"@,
        SchemaLiteralValue::Float(_) => "float"@,
        SchemaLiteralValue::Bool(_) => "bool"@,
    };
    let w2 = match v2 {
        SchemaLiteralValue::String(_) => "string"@,
        SchemaLiteralValue::Int(_) => "int"@,
        SchemaLiteralValue::Float(_) => "float"@,
        SchemaLiteralValue::Bool(_) => "bool"@,
    };
    lemma_short_fits(w1);
    lemma_short_fits(w2);
    let t1 = match v1 {
        SchemaLiteralValue::String(t) => str_bytes(t@) + r1,
        SchemaLiteralValue::Int(i) => u64_bytes(i as u64) + r1,
        SchemaLiteralValue::Float(t) => str_bytes(t@) + r1,
        SchemaLiteralValue::Bool(b) => bool_bytes(b) + r1,
    };
    let t2 = match v2 {
        SchemaLiteralValue::String(t) => str_bytes(t@) + r2,
        SchemaLiteralValue::Int(i) => u64_bytes(i as u64) + r2,
        SchemaLiteralValue::Float(t) => str_bytes(t@) + r2,
        SchemaLiteralValue::Bool(b) => bool_bytes(b) + r2,
    };
    assert(literal_bytes(v1) + r1 == str_bytes(w1) + t1);
    assert(literal_bytes(v2) + r2 == str_bytes(w2) + t2);
    lemma_str_prefix(w1, w2, t1, t2);
    assert(w1.len() == w2.len() && w1[0] == w2[0]);
    match v1 {
        SchemaLiteralValue::String(t) => {
            lemma_str_prefix(t@, v2->String_0@, r1, r2);
        },
        SchemaLiteralValue::Int(i) => {
            let j = v2->Int_0;
            reveal(u64_bytes);
            lemma_split_at(u64_bytes(i as u64), r1, u64_bytes(j as u64), r2);
            lemma_u64_bytes_injective(i as u64, j as u64);
            lemma_i64_cast_injective(i, j);
        },
        SchemaLiteralValue::Float(t) => {
            lemma_str_prefix(t@, v2->Float_0@, r1, r2);
        },
        SchemaLiteralValue::Bool(b) => {
            lemma_bool_prefix(b, v2->Bool_0, r1, r2);
        },
    }
}

/// What an argument binding says: a condition parameter's name, or a literal.
pub open spec fn binding_key(b: AvailabilityReasonArgBinding) -> (bool, Seq<char>, (int, Seq<char>, i64, bool)) {
    match b {
        AvailabilityReasonArgBinding::ConditionParam(n) => (true, n@, (0, Seq::empty(), 0, false)),
        AvailabilityReasonArgBinding::Literal(v) => (false, Seq::empty(), literal_key(v)),
    }
}

/// An argument binding's texts fit the encoding.
pub open spec fn binding_fits(b: AvailabilityReasonArgBinding) -> bool {
    match b {
        AvailabilityReasonArgBinding::ConditionParam(n) => fits(n@),
        AvailabilityReasonArgBinding::Literal(v) => literal_fits(v),
    }
}

proof fn lemma_binding_prefix(
    b1: AvailabilityReasonArgBinding,
    b2: AvailabilityReasonArgBinding,
    r1: Seq<u8>,
    r2: Seq<u8>,
)
    requires
        binding_fits(b1),
        binding_fits(b2),
        arg_binding_bytes(b1) + r1 == arg_binding_bytes(b2) + r2,
    ensures
        binding_key(b1) == binding_key(b2),
        r1 == r2,
{
    reveal(arg_binding_bytes);
    reveal_strlit("condition_param");
    reveal_strlit("literal");
    let w1 = if b1 is ConditionParam { "condition_param"@ } else { "literal"@ };
    let w2 = if b2 is ConditionParam { "condition_param"@ } else { "literal"@ };
    lemma_short_fits(w1);
    lemma_short_fits(w2);
    let t1 = match b1 {
        AvailabilityReasonArgBinding::ConditionParam(n) => str_bytes(n@) + r1,
        AvailabilityReasonArgBinding::Literal(v) => literal_bytes(v) + r1,
    };
    let t2 = match b2 {
        AvailabilityReasonArgBinding::ConditionParam(n) => str_bytes(n@) + r2,
        AvailabilityReasonArgBinding::Literal(v) => literal_bytes(v) + r2,
    };
    assert(arg_binding_bytes(b1) + r1 == str_bytes(w1) + t1);
    assert(arg_binding_bytes(b2) + r2 == str_bytes(w2) + t2);
    lemma_str_prefix(w1, w2, t1, t2);
    assert(w1[0] == w2[0]);
    match b1 {
        AvailabilityReasonArgBinding::ConditionParam(n) => {
            lemma_str_prefix(n@, b2->ConditionParam_0@, r1, r2);
        },
        AvailabilityReasonArgBinding::Literal(v) => {
            lemma_literal_prefix(v, b2->Literal_0, r1, r2);
        },
    }
}

/// What the encoding writes of an argument binding entry.
pub open spec fn binding_view() -> spec_fn((String, AvailabilityReasonArgBinding)) -> (
    Seq<char>,
    (bool, Seq<char>, (int, Seq<char>, i64, bool)),
) {
    |e: (String, AvailabilityReasonArgBinding)| (e.0@, binding_key(e.1))
}

/// An argument binding entry's texts fit the encoding.
pub open spec fn binding_ok() -> spec_fn((String, AvailabilityReasonArgBinding)) -> bool {
    |e: (String, AvailabilityReasonArgBinding)| fits(e.0@) && binding_fits(e.1)
}

proof fn lemma_binding_items()
    ensures
        prefix_free(arg_binding_item(), binding_view(), binding_ok()),
{
    let f = arg_binding_item();
    assert forall|x: (String, AvailabilityReasonArgBinding), y: (String, AvailabilityReasonArgBinding), r1: Seq<u8>,
        r2: Seq<u8>| binding_ok()(x) && binding_ok()(y) && #[trigger] (f(x) + r1) == #[trigger] (f(y) + r2) implies binding_view()(
        x) == binding_view()(y) && r1 == r2 by {
        let t1 = arg_binding_bytes(x.1) + r1;
        let t2 = arg_binding_bytes(y.1) + r2;
        assert(f(x) + r1 == entry_bytes(x.0@) + t1);
        assert(f(y) + r2 == entry_bytes(y.0@) + t2);
        lemma_entry_prefix(x.0@, y.0@, t1, t2);
        lemma_binding_prefix(x.1, y.1, r1, r2);
    }
}

/// What a condition's availability reason mapping says: the reason and each
/// argument binding.
pub open spec fn mapping_key(m: Option<ConditionAvailabilityReasonMapping>) -> Option<
    (Seq<char>, Seq<(Seq<char>, (bool, Seq<char>, (int, Seq<char>, i64, bool)))>),
> {
    match m {
        Some(mp) => Some((mp.reason.text(), mp.args.entry_seq().map_values(binding_view()))),
        None => None,
    }
}

/// A mapping's texts fit the encoding.
pub open spec fn mapping_fits(m: Option<ConditionAvailabilityReasonMapping>) -> bool {
    match m {
        Some(mp) => fits(mp.reason.text()) && section_fits(mp.args, binding_ok()),
        None => true,
    }
}

#[verifier::spinoff_prover]
proof fn lemma_mapping_prefix(
    m1: Option<ConditionAvailabilityReasonMapping>,
    m2: Option<ConditionAvailabilityReasonMapping>,
    r1: Seq<u8>,
    r2: Seq<u8>,
)
    requires
        mapping_fits(m1),
        mapping_fits(m2),
        reason_mapping_bytes(m1) + r1 == reason_mapping_bytes(m2) + r2,
    ensures
        mapping_key(m1) == mapping_key(m2),
        r1 == r2,
{
    reveal(reason_mapping_bytes);
    reveal_strlit("some");
    reveal_strlit("none");
    lemma_short_fits("some"@);
    lemma_short_fits("none"@);
    let w1 = if m1 is Some { "some"@ } else { "none"@ };
    let w2 = if m2 is Some { "some"@ } else { "none"@ };
    let t1 = match m1 {
        Some(mp) => field_string_bytes("reason"@, mp.reason.text()) + (field_bytes("args"@) + (len_bytes(
            mp.args.entry_seq().len(),
        ) + (concat_map(mp.args.entry_seq(), arg_binding_item()) + r1))),
        None => r1,
    };
    let t2 = match m2 {
        Some(mp) => field_string_bytes("reason"@, mp.reason.text()) + (field_bytes("args"@) + (len_bytes(
            mp.args.entry_seq().len(),
        ) + (concat_map(mp.args.entry_seq(), arg_binding_item()) + r2))),
        None => r2,
    };
    assert(reason_mapping_bytes(m1) + r1 =~= str_bytes(w1) + t1);
    assert(reason_mapping_bytes(m2) + r2 =~= str_bytes(w2) + t2);
    lemma_str_prefix(w1, w2, t1, t2);
    assert(w1[0] == w2[0]);
    if let Some(mp) = m1 {
        let mq = m2->0;
        let c1 = concat_map(mp.args.entry_seq(), arg_binding_item()) + r1;
        let c2 = concat_map(mq.args.entry_seq(), arg_binding_item()) + r2;
        let l1 = len_bytes(mp.args.entry_seq().len()) + c1;
        let l2 = len_bytes(mq.args.entry_seq().len()) + c2;
        lemma_field_string_prefix("reason"@, mp.reason.text(), mq.reason.text(), field_bytes("args"@) + l1,
            field_bytes("args"@) + l2);
        lemma_same_prefix(field_bytes("args"@), l1, l2);
        lemma_len_prefix(mp.args.entry_seq().len(), mq.args.entry_seq().len(), c1, c2);
        lemma_binding_items();
        lemma_items_prefix(mp.args.entry_seq(), mq.args.entry_seq(), arg_binding_item(), binding_view(), binding_ok(),
            r1, r2);
    }
}

/// What a condition's return type says: `None` for `bool`, else the enum.
pub open spec fn returns_key(r: ConditionReturnType) -> Option<Seq<char>> {
    match r {
        ConditionReturnType::Bool => None,
        ConditionReturnType::Enum(n) => Some(n@),
    }
}

proof fn lemma_returns_prefix(a: ConditionReturnType, b: ConditionReturnType, r1: Seq<u8>, r2: Seq<u8>)
    requires
        returns_key(a) matches Some(n) ==> fits(n),
        returns_key(b) matches Some(n) ==> fits(n),
        condition_returns_bytes(a) + r1 == condition_returns_bytes(b) + r2,
    ensures
        returns_key(a) == returns_key(b),
        r1 == r2,
{
    reveal(condition_returns_bytes);
    reveal_strlit("bool");
    reveal_strlit("enum");
    lemma_short_fits("bool"@);
    lemma_short_fits("enum"@);
    let w1 = if a is Bool { "bool"@ } else { "enum"@ };
    let w2 = if b is Bool { "bool"@ } else { "enum"@ };
    let t1 = match a {
        ConditionReturnType::Enum(n) => str_bytes(n@) + r1,
        _ => r1,
    };
    let t2 = match b {
        ConditionReturnType::Enum(n) => str_bytes(n@) + r2,
        _ => r2,
    };
    assert(condition_returns_bytes(a) + r1 == str_bytes(w1) + t1);
    assert(condition_returns_bytes(b) + r2 == str_bytes(w2) + t2);
    lemma_str_prefix(w1, w2, t1, t2);
    assert(w1[0] == w2[0]);
    if let ConditionReturnType::Enum(n) = a {
        lemma_str_prefix(n@, b->Enum_0@, r1, r2);
    }
}

/// What the encoding writes of a condition: its name, parameters, return
/// type and availability reason mapping.
pub open spec fn condition_view() -> spec_fn((String, ConditionDefinition)) -> (
    Seq<char>,
    Seq<(Seq<char>, TypeRefView)>,
    Option<Seq<char>>,
    Option<(Seq<char>, Seq<(Seq<char>, (bool, Seq<char>, (int, Seq<char>, i64, bool)))>)>,
) {
    |e: (String, ConditionDefinition)|
        (e.0@, e.1.params@.map_values(param_view_of()), returns_key(e.1.returns), mapping_key(e.1.availability_reason))
}

/// A condition's texts fit the encoding.
pub open spec fn condition_ok() -> spec_fn((String, ConditionDefinition)) -> bool {
    |e: (String, ConditionDefinition)| fits(e.0@) && params_fit(e.1.params@) && (returns_key(e.1.returns) matches Some(
        n,
    ) ==> fits(n)) && mapping_fits(e.1.availability_reason)
}

#[verifier::spinoff_prover]
proof fn lemma_condition_entry_prefix(
    x: (String, ConditionDefinition),
    y: (String, ConditionDefinition),
    r1: Seq<u8>,
    r2: Seq<u8>,
)
    requires
        condition_ok()(x),
        condition_ok()(y),
        condition_entry_item()(x) + r1 == condition_entry_item()(y) + r2,
    ensures
        condition_view()(x) == condition_view()(y),
        r1 == r2,
{
    let a1 = reason_mapping_bytes(x.1.availability_reason) + r1;
    let a2 = reason_mapping_bytes(y.1.availability_reason) + r2;
    let b1 = field_bytes("availability_reason"@) + a1;
    let b2 = field_bytes("availability_reason"@) + a2;
    let c1 = condition_returns_bytes(x.1.returns) + b1;
    let c2 = condition_returns_bytes(y.1.returns) + b2;
    let d1 = field_bytes("returns"@) + c1;
    let d2 = field_bytes("returns"@) + c2;
    let e1 = params_bytes("params"@, x.1.params@) + d1;
    let e2 = params_bytes("params"@, y.1.params@) + d2;
    assert(condition_entry_item()(x) + r1 =~= entry_bytes(x.0@) + e1);
    assert(condition_entry_item()(y) + r2 =~= entry_bytes(y.0@) + e2);
    lemma_entry_prefix(x.0@, y.0@, e1, e2);
    lemma_params_prefix("params"@, x.1.params@, y.1.params@, d1, d2);
    lemma_same_prefix(field_bytes("returns"@), c1, c2);
    lemma_returns_prefix(x.1.returns, y.1.returns, b1, b2);
    lemma_same_prefix(field_bytes("availability_reason"@), a1, a2);
    lemma_mapping_prefix(x.1.availability_reason, y.1.availability_reason, r1, r2);
}

/// The encoding of a condition entry determines its name, each parameter's
/// name and type, its return type and its availability reason mapping.
pub proof fn lemma_condition_entries_read_back()
    ensures
        prefix_free(condition_entry_item(), condition_view(), condition_ok()),
{
    let f = condition_entry_item();
    assert forall|x: (String, ConditionDefinition), y: (String, ConditionDefinition), r1: Seq<u8>, r2: Seq<u8>|
        condition_ok()(x) && condition_ok()(y) && #[trigger] (f(x) + r1) == #[trigger] (f(y) + r2) implies condition_view()(
        x) == condition_view()(y) && r1 == r2 by {
        lemma_condition_entry_prefix(x, y, r1, r2);
    }
}

} // verus!
