use mandate::{convert_markdown_to_roff, sanitize, split_name_description, ManpageOptions};

fn options() -> ManpageOptions {
    ManpageOptions::new("mandate", "1", "Test", None, None)
}

fn th_fields(roff: &str) -> Vec<String> {
    roff.lines()
        .find(|line| line.starts_with(".TH "))
        .map(|line| {
            line.split('"')
                .skip(1)
                .step_by(2)
                .map(str::to_string)
                .collect::<Vec<_>>()
        })
        .unwrap_or_default()
}

#[test]
fn split_name_description_variants() {
    let (name, desc) = split_name_description("mandate(1) -- Example Tool");
    assert_eq!(name, "mandate");
    assert_eq!(desc, "Example Tool");

    let (name, desc) = split_name_description("mandate - Another Tool");
    assert_eq!(name, "mandate");
    assert_eq!(desc, "Another Tool");

    let (name, desc) = split_name_description("mandate — Dash Tool");
    assert_eq!(name, "mandate");
    assert_eq!(desc, "Dash Tool");

    let (name, desc) = split_name_description("mandate");
    assert_eq!(name, "mandate");
    assert!(desc.is_empty());
}

#[test]
fn sanitize_angle_brackets_emits_italic() {
    let sanitized = sanitize("Use <arg> and <file>");
    assert!(sanitized.contains("\\fIarg\\fR"));
    assert!(sanitized.contains("\\fIfile\\fR"));
}

#[test]
fn render_bulleted_list_with_code_and_linebreaks() {
    let markdown = r#"
## LIST

- Item one
- Item two with  \
  hard break

```
code
```
"#;
    let roff = convert_markdown_to_roff(markdown, &options()).expect("render roff");
    assert!(roff.contains(".IP \"\\(bu\" 4"));
    assert!(roff.contains("Item one"));
    assert!(roff.contains("Item two with"));
    assert!(roff.contains(".nf"));
    assert!(roff.contains("code"));
    assert!(roff.contains(".fi"));
}

#[test]
fn render_image_uses_alt_text() {
    let markdown = r#"
## IMG

![Alt Text](https://example.com/image.png)
"#;
    let roff = convert_markdown_to_roff(markdown, &options()).expect("render roff");
    assert!(roff.contains("Alt Text"));
}

#[test]
fn soft_breaks_collapse_to_space() {
    let markdown = r#"
## TEXT

line one
line two
"#;
    let roff = convert_markdown_to_roff(markdown, &options()).expect("render roff");
    assert!(roff.contains("line one line two"));
}

#[test]
fn special_list_stops_before_code_block() {
    let markdown = r#"
## OPTIONS

- Foo:

Paragraph before code.

```
code
```
"#;
    let roff = convert_markdown_to_roff(markdown, &options()).expect("render roff");
    assert!(roff.contains(".IP\nParagraph before code"));
    assert!(roff.contains(".nf"));
    assert!(roff.contains("code"));
}

#[test]
fn consecutive_code_blocks_are_combined() {
    let markdown = r#"
## CODE

```
first
```

```
second
```
"#;
    let roff = convert_markdown_to_roff(markdown, &options()).expect("render roff");
    assert!(roff.contains("first"));
    assert!(roff.contains("second"));
    assert!(roff.contains(".nf"));
    assert!(roff.contains(".fi"));
}

#[test]
fn link_text_is_rendered() {
    let markdown = r#"
## LINKS

See [example](https://example.com).
"#;
    let roff = convert_markdown_to_roff(markdown, &options()).expect("render roff");
    assert!(roff.contains("See example"));
}

#[test]
fn leading_dot_line_is_escaped() {
    let markdown = r#"
## TEXT

.leading dot
"#;
    let roff = convert_markdown_to_roff(markdown, &options()).expect("render roff");
    assert!(roff.contains("\\&\\.leading"));
}

#[test]
fn renders_headings_and_inline_styles() {
    let markdown = r#"
# mandate(1) -- Example Tool

## Overview

Paragraph with *em* and **strong** and `code` and <arg>.
"#;
    let roff = convert_markdown_to_roff(markdown, &options()).expect("render roff");
    let fields = th_fields(&roff);
    assert!(fields.len() >= 5);
    assert_eq!(fields[0], "mandate");
    assert_eq!(fields[1], "1");
    assert!(!fields[2].is_empty());
    // The fifth field is the source label, which these options leave out.
    assert_eq!(fields[4], "");
    assert_eq!(fields[2], "Test");
    assert!(roff.contains(".SH \"NAME\""));
    assert!(roff.contains("\\fBmandate\\fR \\- Example Tool"));
    assert!(roff.contains("\\fIem\\fR"));
    assert!(roff.contains("\\fBstrong\\fR"));
    assert!(roff.contains("\\fBcode\\fR"));
    assert!(roff.contains("\\fIarg\\fR"));
}

#[test]
fn special_list_consumes_following_paragraphs() {
    let markdown = r#"
## OPTIONS

- Foo:

Paragraph after foo.
"#;
    let roff = convert_markdown_to_roff(markdown, &options()).expect("render roff");
    assert!(roff.contains(".TP"));
    assert!(roff.contains("Foo:"));
    assert!(roff.contains(".IP"));
    assert!(roff.contains("Paragraph after foo\\."));
    assert!(roff.contains("Foo:\n.IP"));
}
