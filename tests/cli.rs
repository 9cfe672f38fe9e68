use mandate::{input_kind, InputKind};

#[test]
fn input_kind_detects_extensions() {
    assert!(matches!(input_kind("-"), InputKind::Auto));
    assert!(matches!(input_kind("manual.yaml"), InputKind::Yaml));
    assert!(matches!(input_kind("manual.yml"), InputKind::Yaml));
    assert!(matches!(input_kind("manual.md"), InputKind::Markdown));
    assert!(matches!(input_kind("manual.markdown"), InputKind::Markdown));
    assert!(matches!(input_kind("manual.txt"), InputKind::Auto));
}

#[test]
fn input_kind_ignores_ascii_case() {
    assert_eq!(input_kind("MANUAL.YML"), InputKind::Yaml);
    assert_eq!(input_kind("Manual.Yaml"), InputKind::Yaml);
    assert_eq!(input_kind("Page.MD"), InputKind::Markdown);
    assert_eq!(input_kind("yml"), InputKind::Auto);
    assert_eq!(input_kind("--"), InputKind::Auto);
}
