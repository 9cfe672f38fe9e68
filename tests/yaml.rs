use mandate::{
    convert_yaml_to_markdown, convert_yaml_to_roff, dedent_body, manual_markdown, map_get_sequence,
    map_get_string, parse_yaml_to_document, yaml_type_name, yaml_value_to_string, Block,
    MandateError, ManpageOptions, YamlNode,
};

const MANUAL: &str = "manpage_intro: |
  # jq(1) - Command-line JSON processor

body: |
  ## SYNOPSIS

  `jq` [options...] filter [files...]

sections:
  - title: filters
    body: |
      A jq program is a filter.
    entries:
      - title: \"Identity: `.`\"
        body: |
          The simplest filter.
        examples:
          - program: '.'
            input: '\"Hello, world!\"'
            output: ['\"Hello, world!\"']
          - program: '.foo'
            input: '{\"foo\": 42}'
            output: [42, [1, 2], {k: v}]
manpage_epilogue: |
  ## AUTHOR
";

fn s(text: &str) -> YamlNode {
    YamlNode::Str(text.to_string())
}

#[test]
fn converts_yaml_manual_to_markdown() {
    let markdown = convert_yaml_to_markdown(MANUAL).expect("convert yaml");
    assert!(markdown.contains("## SYNOPSIS"));
    assert!(markdown.contains("## FILTERS"));
    assert!(markdown.contains("### "));
    assert!(markdown.contains("~~~~"));
    assert!(markdown.contains("=> "));
    assert!(markdown.contains("jq '"));
}

#[test]
fn yaml_example_block_layout() {
    let markdown = convert_yaml_to_markdown(MANUAL).expect("convert yaml");
    assert!(markdown.contains(
        "~~~~\njq '.'\n   \"Hello, world!\"\n=> \"Hello, world!\"\n\njq '.foo'\n   {\"foo\": 42}\n=> 42, [1, 2], {k: v}\n~~~~\n"
    ));
    assert!(markdown.contains("### Identity: `.`\nThe simplest filter.\n"));
    assert!(markdown.ends_with("## AUTHOR\n"));
}

#[test]
fn minimal_manual_has_both_heading_levels_and_a_fence() {
    let yaml = "sections:\n  - title: s\n    entries:\n      - title: e\n        examples:\n          - program: 'keys'\n            input: '{}'\n            output: []\n";
    let markdown = convert_yaml_to_markdown(yaml).expect("convert yaml");
    assert!(markdown.contains("## S\n"));
    assert!(markdown.contains("### e\n"));
    assert!(markdown.contains("~~~~\n"));
    assert!(markdown.contains("jq 'keys'\n"));
    assert_eq!(
        markdown,
        "\n\n## S\n\n\n### e\n\n\n~~~~\njq 'keys'\n   {}\n=> \n~~~~\n\n"
    );
}

#[test]
fn yaml_manual_renders_as_roff() {
    let options = ManpageOptions::new("jq", "1", "jq Manual", None, None);
    let roff = convert_yaml_to_roff(MANUAL, &options).expect("render roff");
    assert!(roff.contains(".SH \"FILTERS\""));
    assert!(roff.contains(".SS \"Identity: \\fB\\.\\fR\"") || roff.contains(".SS \"Identity: \\.\""));
    let document = parse_yaml_to_document(MANUAL).expect("parse yaml");
    assert!(document
        .blocks
        .iter()
        .any(|b| matches!(b, Block::CodeBlock { .. })));
}

#[test]
fn yaml_value_to_string_covers_collections() {
    let value = YamlNode::Hash(vec![(s("k"), YamlNode::Integer(1))]);
    assert_eq!(yaml_value_to_string(&value), "{k: 1}");

    let array = YamlNode::Array(vec![YamlNode::Integer(1), YamlNode::Integer(2)]);
    assert_eq!(yaml_value_to_string(&array), "[1, 2]");

    let alias = YamlNode::Alias(3);
    assert_eq!(yaml_value_to_string(&alias), "*3");

    let bad = YamlNode::BadValue;
    assert_eq!(yaml_value_to_string(&bad), "!!badvalue");
}

#[test]
fn yaml_value_to_string_scalars() {
    assert_eq!(yaml_value_to_string(&YamlNode::Null), "null");
    assert_eq!(yaml_value_to_string(&YamlNode::Boolean(true)), "true");
    assert_eq!(yaml_value_to_string(&YamlNode::Boolean(false)), "false");
    assert_eq!(yaml_value_to_string(&YamlNode::Integer(-120)), "-120");
    assert_eq!(yaml_value_to_string(&YamlNode::Integer(i64::MIN)), "-9223372036854775808");
    assert_eq!(yaml_value_to_string(&YamlNode::Real("1.50".to_string())), "1.50");
    let nested = YamlNode::Array(vec![YamlNode::Array(vec![]), s("x")]);
    assert_eq!(yaml_value_to_string(&nested), "[[], x]");
}

#[test]
fn convert_yaml_to_markdown_errors_on_wrong_type() {
    let yaml = "[]";
    let err = convert_yaml_to_markdown(yaml).expect_err("expected error");
    match err {
        MandateError::Yaml(msg) => assert!(msg.contains("mapping")),
        other => panic!("unexpected error: {other:?}"),
    }
}

#[test]
fn convert_yaml_to_markdown_errors_on_empty_and_bad_yaml() {
    assert!(matches!(convert_yaml_to_markdown(""), Err(MandateError::Yaml(_))));
    assert!(matches!(convert_yaml_to_markdown("a: [1, 2"), Err(MandateError::Yaml(_))));
    assert!(matches!(
        convert_yaml_to_markdown("sections: 5"),
        Err(MandateError::Yaml(_))
    ));
    assert!(matches!(
        convert_yaml_to_markdown("sections:\n  - title: [1]"),
        Err(MandateError::Yaml(_))
    ));
}

#[test]
fn map_get_string_errors_on_non_string() {
    let map = vec![(s("title"), YamlNode::Integer(5))];
    let err = map_get_string(&map, "title").expect_err("expected error");
    match err {
        MandateError::Yaml(msg) => assert!(msg.contains("expected string")),
        other => panic!("unexpected error: {other:?}"),
    }
}

#[test]
fn map_get_string_reads_strings_and_null() {
    let map = vec![(s("title"), s("T")), (s("body"), YamlNode::Null)];
    assert_eq!(map_get_string(&map, "title").unwrap(), Some("T".to_string()));
    assert_eq!(map_get_string(&map, "body").unwrap(), None);
    assert_eq!(map_get_string(&map, "absent").unwrap(), None);
}

#[test]
fn map_get_sequence_errors_on_non_sequence() {
    let map = vec![(s("entries"), s("nope"))];
    let err = map_get_sequence(&map, "entries").expect_err("expected error");
    match err {
        MandateError::Yaml(msg) => assert!(msg.contains("expected sequence")),
        other => panic!("unexpected error: {other:?}"),
    }
}

#[test]
fn yaml_type_name_variants() {
    assert_eq!(yaml_type_name(&YamlNode::Null), "null");
    assert_eq!(yaml_type_name(&YamlNode::Boolean(true)), "bool");
    assert_eq!(yaml_type_name(&YamlNode::Integer(1)), "int");
    assert_eq!(yaml_type_name(&YamlNode::Real("1.2".to_string())), "float");
    assert_eq!(yaml_type_name(&s("x")), "string");
    assert_eq!(yaml_type_name(&YamlNode::Array(vec![])), "sequence");
    assert_eq!(yaml_type_name(&YamlNode::Hash(vec![])), "mapping");
    assert_eq!(yaml_type_name(&YamlNode::Alias(1)), "alias");
    assert_eq!(yaml_type_name(&YamlNode::BadValue), "bad");
}

#[test]
fn dedent_strips_exactly_two_spaces() {
    assert_eq!(dedent_body("  a\n    b\n  \n c\n\t\nx"), "a\n    b\n  \n c\n\t\nx");
    assert_eq!(dedent_body(""), "");
    assert_eq!(dedent_body("  x\n"), "x\n");
}

#[test]
fn manual_markdown_from_a_node_tree() {
    let root = YamlNode::Hash(vec![
        (s("manpage_intro"), s("intro\n")),
        (
            s("sections"),
            YamlNode::Array(vec![YamlNode::Hash(vec![(s("title"), s("usage"))])]),
        ),
    ]);
    assert_eq!(manual_markdown(&root).unwrap(), "intro\n\n## USAGE\n\n\n\n");
    assert!(matches!(manual_markdown(&YamlNode::Null), Err(MandateError::Yaml(_))));
}

fn yaml_error(yaml: &str) -> String {
    match convert_yaml_to_markdown(yaml) {
        Err(MandateError::Yaml(msg)) => msg,
        other => panic!("unexpected result: {other:?}"),
    }
}

#[test]
fn shape_errors_carry_their_messages() {
    assert_eq!(yaml_error("sections:\n  - 5\n"), "expected mapping for sections item");
    assert_eq!(
        yaml_error("sections:\n  - title: 5\n"),
        "expected string for key 'title', found int"
    );
    assert_eq!(
        yaml_error("sections: nope\n"),
        "expected sequence for key 'sections', found string"
    );
    assert_eq!(
        yaml_error("sections:\n  - entries:\n      - examples:\n          - [1]\n"),
        "expected mapping for example"
    );
    assert_eq!(yaml_error("[]"), "expected mapping for manual root");
    assert_eq!(yaml_error(""), "empty yaml document");
}

#[test]
fn the_first_shape_error_in_reading_order_is_reported() {
    assert_eq!(
        yaml_error("manpage_epilogue: [1]\nsections:\n  - 5\n"),
        "expected mapping for sections item"
    );
    assert_eq!(
        yaml_error("manpage_epilogue: [1]\n"),
        "expected string for key 'manpage_epilogue', found sequence"
    );
}

#[test]
fn section_markdown_from_an_upper_cased_title() {
    let section = vec![
        (s("title"), s("usage")),
        (s("body"), s("  Run it.\n")),
        (s("entries"), YamlNode::Array(vec![YamlNode::Hash(vec![(s("title"), s("e"))])])),
    ];
    assert_eq!(
        mandate::section_markdown("USAGE", &section).unwrap(),
        "## USAGE\nRun it.\n\n### e\n\n\n\n"
    );
    let bad = vec![(s("body"), YamlNode::Integer(1))];
    match mandate::section_markdown("X", &bad) {
        Err(MandateError::Yaml(msg)) => assert_eq!(msg, "expected string for key 'body', found int"),
        other => panic!("unexpected result: {other:?}"),
    }
}

#[test]
fn scanner_errors_keep_their_message() {
    let msg = yaml_error("a: [1, 2");
    assert!(msg.contains("line"));
    assert!(msg.contains("column"));
}
