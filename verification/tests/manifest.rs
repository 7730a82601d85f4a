use recite_core::manifest::load::{
    load_schema_manifest_for_freshness_str, load_schema_manifest_str, lower_manifest_with_format,
    ManifestLoadOptions, ManifestParseError,
};
use recite_core::manifest::lower::availability::{extract_placeholder_names, PlaceholderSyntaxKind};
use recite_core::manifest::raw::{
    Named, RawConditionDefinition, RawManifest, RawNumber, RawParameterDefinition, RawProducerFingerprint,
    RawProducerIdentity, RawTypeDefinition, RawValue,
};
use recite_core::manifest::spans::ManifestSourceFormat;
use recite_core::manifest::validate::{is_manifest_name, parse_type_ref};
use recite_core::manifest::lower::parameters::type_ref_name;
use recite_core::model::SchemaTypeRef;
use recite_core::manifest::version::number_token_equals_one;
use recite_core::model::freshness::{
    compare_schema_producer_freshness, compare_schema_producer_freshness_detailed,
};
use recite_core::model::producer::ProducerFreshness;

fn number(lexeme: &str) -> RawValue {
    RawValue::Number(RawNumber { lexeme: lexeme.to_string(), finite: true })
}

fn manifest(version: RawValue) -> RawManifest {
    RawManifest {
        schema_version: version,
        producer: None,
        content_fingerprint: None,
        schema_export_version: None,
        inclusion_policy: None,
        producer_fingerprints: vec![],
        types: vec![],
        registries: vec![],
        speakers: vec![],
        conditions: vec![],
        availability_reasons: vec![],
        effects: vec![],
        metadata_domains: vec![],
        metadata: vec![],
        projection_queries: vec![],
        presentation_projectors: vec![],
        markup: vec![],
    }
}

fn producer_fp(id: &str, value: &str) -> RawProducerFingerprint {
    RawProducerFingerprint {
        id: id.to_string(),
        kind: "file".to_string(),
        algorithm: "sha".to_string(),
        value: value.to_string(),
    }
}

#[test]
fn version_one_tokens() {
    for one in ["1", "1.0", "1e0", "10e-1", "0.1e1", "1.000", "01"] {
        assert!(number_token_equals_one(one), "{one}");
    }
    for other in ["2", "1.5", "-1", "0", "1e-100000", "999999999999999999999999999999999999999999", "", "e", "1e"] {
        assert!(!number_token_equals_one(other), "{other}");
    }
}

#[test]
fn an_empty_version_one_manifest_loads() {
    let source = "{\"schema_version\": 1}";
    let report = load_schema_manifest_str("schema.json", source, Ok(manifest(number("1"))));
    assert!(report.diagnostics.is_empty());
    let schema = report.schema.expect("schema");
    assert_eq!(schema.schema_version, 1);
    assert_eq!(schema.types.len(), 0);
    assert_eq!(schema.conditions.len(), 0);
    assert_eq!(schema.metadata_domains.len(), 0);
    assert_eq!(schema.presentation_projectors.len(), 0);
    assert!(schema.producer_metadata.is_none());
}

#[test]
fn an_unsupported_version_is_reported_with_its_lexeme() {
    let source = "{\"schema_version\": 1.5}";
    let report = load_schema_manifest_str("schema.json", source, Ok(manifest(number("1.5"))));
    assert!(report.schema.is_none());
    assert_eq!(report.diagnostics.len(), 1);
    let d = &report.diagnostics[0];
    assert_eq!(d.code.as_str(), "RECITE_SCHEMA002");
    assert_eq!(d.message, "unsupported schema manifest version 1.5");
    assert_eq!(d.span.file, "schema.json");
    assert_eq!(d.span.start.line, 1);
    let presentation = d.presentation.as_ref().unwrap();
    assert_eq!(presentation.id, "diagnostic-schema-002-unsupported-version");
    assert_eq!(
        presentation.arguments().get("version"),
        Some(&recite_core::diagnostics::DiagnosticArgumentValue::String("1.5".to_string()))
    );
}

#[test]
fn a_version_that_is_not_a_number_is_malformed() {
    let source = "{\"schema_version\": \"1\"}";
    let report = load_schema_manifest_str(
        "schema.json",
        source,
        Ok(manifest(RawValue::String("1".to_string()))),
    );
    assert!(report.schema.is_none());
    assert_eq!(report.diagnostics.len(), 1);
    assert_eq!(report.diagnostics[0].code.as_str(), "RECITE_SCHEMA001");
    assert_eq!(report.diagnostics[0].message, "schema_version must be an integer");
}

#[test]
fn toml_versions_read_the_number_lexeme() {
    let options = ManifestLoadOptions { allow_duplicate_producer_fingerprints: false };
    let ok = lower_manifest_with_format(
        "schema.toml",
        "schema_version = 1.0\n",
        manifest(number("1.0")),
        options,
        ManifestSourceFormat::Toml,
    );
    assert!(ok.schema.is_some());
    let bad = lower_manifest_with_format(
        "schema.toml",
        "schema_version = 2\n",
        manifest(number("2")),
        options,
        ManifestSourceFormat::Toml,
    );
    assert!(bad.schema.is_none());
    assert_eq!(bad.diagnostics[0].message, "unsupported schema manifest version 2");
}

#[test]
fn text_that_does_not_parse_gives_one_diagnostic() {
    let error = ManifestParseError {
        message: "expected value at line 2 column 3".to_string(),
        line: 2,
        column: 3,
    };
    let report = load_schema_manifest_str("schema.json", "{\n  ]", Err(error));
    assert!(report.schema.is_none());
    assert_eq!(report.diagnostics.len(), 1);
    let d = &report.diagnostics[0];
    assert_eq!(d.code.as_str(), "RECITE_SCHEMA001");
    assert_eq!(d.message, "malformed schema manifest: expected value at line 2 column 3");
    assert_eq!((d.span.start.line, d.span.start.column), (2, 3));
    let unknown = ManifestParseError { message: "eof".to_string(), line: 0, column: 0 };
    let report = load_schema_manifest_str("schema.json", "", Err(unknown));
    assert_eq!((report.diagnostics[0].span.start.line, report.diagnostics[0].span.start.column), (1, 1));
}

#[test]
fn duplicate_type_definitions_are_reported() {
    let source = "{\"schema_version\": 1, \"types\": {\"mood\": {}, \"mood\": {}}}";
    let mut raw = manifest(number("1"));
    for _ in 0..2 {
        raw.types.push(Named {
            name: "mood".to_string(),
            value: RawTypeDefinition { kind: "enum".to_string(), values: vec!["calm".to_string()] },
        });
    }
    let report = load_schema_manifest_str("schema.json", source, Ok(raw));
    assert!(report.schema.is_none());
    assert!(!report.diagnostics.is_empty());
}

#[test]
fn repeated_producer_fingerprints_are_kept_only_for_freshness() {
    let source = "{\"schema_version\": 1}";
    let build = || {
        let mut raw = manifest(number("1"));
        raw.producer = Some(RawProducerIdentity { kind: "tool".to_string(), id: "exporter".to_string() });
        raw.producer_fingerprints = vec![producer_fp("a", "1"), producer_fp("a", "2")];
        raw
    };
    let strict = load_schema_manifest_str("schema.json", source, Ok(build()));
    assert!(strict.schema.is_none());
    let lenient = load_schema_manifest_for_freshness_str("schema.json", source, Ok(build()));
    assert!(lenient.diagnostics.is_empty(), "{:?}", lenient.diagnostics);
    let schema = lenient.schema.unwrap();
    let kept: Vec<(String, String)> = schema
        .producer_metadata
        .as_ref()
        .unwrap()
        .producer_fingerprints
        .iter()
        .map(|f| (f.id.clone(), f.value.clone()))
        .collect();
    assert_eq!(kept, vec![("a".to_string(), "1".to_string()), ("a".to_string(), "2".to_string())]);
    assert!(matches!(
        compare_schema_producer_freshness(&schema, &schema),
        ProducerFreshness::Invalid { .. }
    ));
}

#[test]
fn schemas_loaded_from_the_same_manifest_are_fresh() {
    let source = "{\"schema_version\": 1}";
    let build = || {
        let mut raw = manifest(number("1"));
        raw.producer_fingerprints = vec![producer_fp("a", "1"), producer_fp("b", "2")];
        raw
    };
    let a = load_schema_manifest_str("schema.json", source, Ok(build())).schema.unwrap();
    let b = load_schema_manifest_str("schema.json", source, Ok(build())).schema.unwrap();
    assert_eq!(compare_schema_producer_freshness(&a, &b), ProducerFreshness::Fresh);
    let mut changed = build();
    changed.producer_fingerprints[1].value = "3".to_string();
    let c = load_schema_manifest_str("schema.json", source, Ok(changed)).schema.unwrap();
    assert!(matches!(compare_schema_producer_freshness(&a, &c), ProducerFreshness::Mismatch { .. }));
}

#[test]
fn canonical_fingerprints_depend_on_content() {
    let source = "{\"schema_version\": 1}";
    let a = load_schema_manifest_str("schema.json", source, Ok(manifest(number("1")))).schema.unwrap();
    let b = load_schema_manifest_str("schema.json", source, Ok(manifest(number("1.0")))).schema.unwrap();
    assert!(a.canonical_content_fingerprint().same(&b.canonical_content_fingerprint()));
    let mut raw = manifest(number("1"));
    raw.types.push(Named {
        name: "mood".to_string(),
        value: RawTypeDefinition { kind: "enum".to_string(), values: vec!["calm".to_string()] },
    });
    let source2 = "{\"schema_version\": 1, \"types\": {\"mood\": {\"kind\": \"enum\", \"values\": [\"calm\"]}}}";
    let c = load_schema_manifest_str("schema.json", source2, Ok(raw));
    let c = c.schema.expect("schema with a type");
    assert!(!a.canonical_content_fingerprint().same(&c.canonical_content_fingerprint()));
}

#[test]
fn content_fingerprint_ignores_producer_metadata() {
    let source = "{\"schema_version\": 1}";
    let a = load_schema_manifest_str("schema.json", source, Ok(manifest(number("1")))).schema.unwrap();
    let mut raw = manifest(number("1"));
    raw.producer_fingerprints = vec![producer_fp("a", "1")];
    let b = load_schema_manifest_str("schema.json", source, Ok(raw)).schema.unwrap();
    assert!(a.producer_metadata.is_none());
    assert!(b.producer_metadata.is_some());
    assert!(a.canonical_content_fingerprint().same(&b.canonical_content_fingerprint()));
}

#[test]
fn type_reference_text_reads_back() {
    let t = SchemaTypeRef::Array(Box::new(SchemaTypeRef::Registry("items".to_string())));
    let text = type_ref_name(&t);
    assert_eq!(text, "array:registry:items");
    assert_eq!(parse_type_ref(&text), Some(t));
    assert_eq!(parse_type_ref(&type_ref_name(&SchemaTypeRef::Speaker)), Some(SchemaTypeRef::Speaker));
    assert_eq!(parse_type_ref("enum:9bad"), None);
}

#[test]
fn placeholders_are_read_in_order() {
    assert_eq!(
        extract_placeholder_names("Needs {item} from {giver}").unwrap(),
        vec!["item".to_string(), "giver".to_string()]
    );
    assert_eq!(extract_placeholder_names("literal {{braces}}").unwrap(), Vec::<String>::new());
    assert!(matches!(
        extract_placeholder_names("open {item"),
        Err(PlaceholderSyntaxKind::Unterminated)
    ));
    match extract_placeholder_names("bad {2x}") {
        Err(PlaceholderSyntaxKind::InvalidName(name)) => assert_eq!(name, "2x"),
        other => panic!("unexpected {other:?}"),
    }
    assert!(matches!(
        extract_placeholder_names("stray } brace"),
        Err(PlaceholderSyntaxKind::UnescapedClosingBrace)
    ));
    assert_eq!(
        extract_placeholder_names("bad {2x}").unwrap_err().message(),
        "invalid placeholder name '2x'"
    );
}

#[test]
fn manifest_names() {
    for ok in ["a", "mood", "has_key2", "Mood", "_a", "a-b", "a.b"] {
        assert!(is_manifest_name(ok), "{ok}");
    }
    for bad in ["", "2x", "a b", "-a", "a:b"] {
        assert!(!is_manifest_name(bad), "{bad}");
    }
}

#[test]
fn a_schema_compared_with_itself_is_fresh_in_every_channel() {
    let source = "{\"schema_version\": 1}";
    let mut raw = manifest(number("1"));
    raw.producer_fingerprints = vec![producer_fp("a", "1"), producer_fp("b", "2")];
    let schema = load_schema_manifest_str("schema.json", source, Ok(raw)).schema.unwrap();
    let evidence = compare_schema_producer_freshness_detailed(&schema, &schema);
    assert!(evidence.is_fresh());
    assert_eq!(compare_schema_producer_freshness(&schema, &schema), ProducerFreshness::Fresh);
}

fn condition_with_param(type_ref: &str) -> Named<RawConditionDefinition> {
    Named {
        name: "has_mood".to_string(),
        value: RawConditionDefinition {
            params: vec![RawParameterDefinition { name: "mood".to_string(), type_ref: type_ref.to_string() }],
            returns: None,
            availability_reason: None,
        },
    }
}

#[test]
fn type_references_must_name_declared_types() {
    let source = "{\"schema_version\": 1}";
    let mut dangling = manifest(number("1"));
    dangling.conditions.push(condition_with_param("enum:mood"));
    let report = load_schema_manifest_str("schema.json", source, Ok(dangling));
    assert!(report.schema.is_none());
    assert!(report.diagnostics.iter().any(|d| d.code.as_str() == "RECITE_SCHEMA004"));

    let mut declared = manifest(number("1"));
    declared.types.push(Named {
        name: "mood".to_string(),
        value: RawTypeDefinition { kind: "enum".to_string(), values: vec!["calm".to_string()] },
    });
    declared.conditions.push(condition_with_param("enum:mood"));
    let report = load_schema_manifest_str("schema.json", source, Ok(declared));
    assert!(report.diagnostics.is_empty(), "{:?}", report.diagnostics);
    assert!(report.schema.is_some());
}

#[test]
fn version_problems_come_before_section_problems() {
    let source = "{\"schema_version\": 2, \"types\": {\"mood\": {}, \"mood\": {}}}";
    let mut raw = manifest(number("2"));
    for _ in 0..2 {
        raw.types.push(Named {
            name: "mood".to_string(),
            value: RawTypeDefinition { kind: "enum".to_string(), values: vec!["calm".to_string()] },
        });
    }
    let report = load_schema_manifest_str("schema.json", source, Ok(raw));
    assert!(report.schema.is_none());
    assert!(report.diagnostics.len() >= 2);
    assert_eq!(report.diagnostics[0].code.as_str(), "RECITE_SCHEMA002");
    assert_eq!(report.diagnostics[1].code.as_str(), "RECITE_SCHEMA003");
}

#[test]
fn loading_modes_agree_without_repeated_fingerprints() {
    let source = "{\"schema_version\": 1}";
    let build = || {
        let mut raw = manifest(number("1"));
        raw.producer_fingerprints = vec![producer_fp("a", "1"), producer_fp("b", "2")];
        raw.conditions.push(condition_with_param("enum:mood"));
        raw
    };
    let strict = load_schema_manifest_str("schema.json", source, Ok(build()));
    let fresh = load_schema_manifest_for_freshness_str("schema.json", source, Ok(build()));
    assert!(strict.schema.is_none() && fresh.schema.is_none());
    let strict_messages: Vec<String> = strict.diagnostics.iter().map(|d| d.message.clone()).collect();
    let fresh_messages: Vec<String> = fresh.diagnostics.iter().map(|d| d.message.clone()).collect();
    assert_eq!(strict_messages, fresh_messages);
    assert!(!strict_messages.is_empty());
}
