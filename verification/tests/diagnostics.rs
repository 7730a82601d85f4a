use recite_core::diagnostics::{
    schema_diagnostic, DiagnosticArgumentValue, DiagnosticCode, SourcePosition, SourceSpan,
};

#[test]
fn factory_preserves_arbitrary_unsupported_version_lexemes() {
    for version in [
        "1.5",
        "1e-100000",
        "999999999999999999999999999999999999999999",
    ] {
        let diagnostic = schema_diagnostic(
            DiagnosticCode::new_static("RECITE_SCHEMA002"),
            "diagnostic-schema-002-unsupported-version",
            format!("unsupported schema manifest version {version}"),
            SourceSpan::point(
                "schema.json",
                SourcePosition::new(1, 1).expect("valid source position"),
            ),
            vec![(
                "version".to_string(),
                DiagnosticArgumentValue::String(version.to_owned()),
            )],
        );

        assert_eq!(
            diagnostic
                .presentation
                .as_ref()
                .expect("structured presentation")
                .arguments()
                .get("version"),
            Some(&DiagnosticArgumentValue::String(version.to_owned()))
        );
    }
}

#[test]
fn source_positions_start_at_one() {
    assert!(SourcePosition::new(0, 1).is_none());
    assert!(SourcePosition::new(1, 0).is_none());
    let p = SourcePosition::new(3, 7).unwrap();
    assert_eq!((p.line, p.column), (3, 7));
}

#[test]
fn factory_keeps_code_message_span_and_missing_arguments() {
    let diagnostic = schema_diagnostic(
        DiagnosticCode::new_static("RECITE_SCHEMA001"),
        "diagnostic-schema-001-schema-version-type",
        "schema_version must be an integer".to_string(),
        SourceSpan::point("schema.json", SourcePosition::new(2, 5).unwrap()),
        Vec::new(),
    );
    assert_eq!(diagnostic.code.as_str(), "RECITE_SCHEMA001");
    assert_eq!(diagnostic.message, "schema_version must be an integer");
    assert_eq!(diagnostic.span.file, "schema.json");
    assert_eq!((diagnostic.span.start.line, diagnostic.span.start.column), (2, 5));
    let presentation = diagnostic.presentation.as_ref().unwrap();
    assert_eq!(presentation.id, "diagnostic-schema-001-schema-version-type");
    assert_eq!(presentation.arguments().get("version"), None);
}
