use mandate::{convert_auto, validate_yaml_with_schema_str, MandateError, ManpageOptions, BUILTIN_SCHEMA};

#[test]
fn validate_yaml_rejects_invalid_shape() {
    let err = validate_yaml_with_schema_str("[]", BUILTIN_SCHEMA)
        .expect_err("array should not match schema");
    assert!(matches!(err, MandateError::Schema(_)));
}

#[test]
fn builtin_schema_accepts_minimal_manual() {
    let yaml = "manpage_intro: intro\nsections:\n  - title: s\n    entries:\n      - title: e\n        examples:\n          - program: '.'\n            input: '1'\n            output: [1]\n";
    validate_yaml_with_schema_str(yaml, BUILTIN_SCHEMA).expect("minimal manual should validate");
}

#[test]
fn builtin_schema_rejects_wrong_field_type() {
    let err = validate_yaml_with_schema_str("sections: 3\n", BUILTIN_SCHEMA)
        .expect_err("a number is no sequence");
    assert!(matches!(err, MandateError::Schema(_)));
}

#[test]
fn validation_error_kinds() {
    assert!(matches!(
        validate_yaml_with_schema_str("", BUILTIN_SCHEMA),
        Err(MandateError::Yaml(_))
    ));
    assert!(matches!(
        validate_yaml_with_schema_str("a: [1", BUILTIN_SCHEMA),
        Err(MandateError::Yaml(_))
    ));
    assert!(matches!(
        validate_yaml_with_schema_str("a: 1", ""),
        Err(MandateError::Schema(_))
    ));
    assert!(matches!(
        validate_yaml_with_schema_str("a: 1", "type: 5"),
        Err(MandateError::Schema(_))
    ));
}

#[test]
fn error_messages_name_their_kind() {
    assert_eq!(MandateError::Yaml("x".to_string()).message(), "yaml parse error: x");
    assert_eq!(MandateError::Markdown("y".to_string()).message(), "markdown parse error: y");
    assert_eq!(MandateError::Schema("z".to_string()).message(), "schema validation error: z");
}

#[test]
fn auto_conversion_falls_back_only_on_yaml_errors() {
    let options = ManpageOptions::new("t", "1", "T", None, None);
    let from_markdown = convert_auto("## USAGE\n\nplain text\n", &options, None).expect("markdown");
    assert!(from_markdown.contains(".SH \"USAGE\""));
    let from_yaml = convert_auto("sections:\n  - title: usage\n", &options, None).expect("yaml");
    assert!(from_yaml.contains(".SH \"USAGE\""));
    let rejected = convert_auto("sections: 3\n", &options, Some(BUILTIN_SCHEMA));
    assert!(matches!(rejected, Err(MandateError::Schema(_))));
    let validated = convert_auto("sections:\n  - title: usage\n", &options, Some(BUILTIN_SCHEMA));
    assert!(validated.expect("valid").contains(".SH \"USAGE\""));
    let not_yaml = convert_auto("a: [1\n\nSome *text*.\n", &options, Some(BUILTIN_SCHEMA));
    assert!(not_yaml.expect("markdown").contains("\\fItext\\fR"));
}
