use mandate::{
    parse_events, parse_markdown, render_roff, Block, Document, Inline, LineBreak, ListItem,
    ListKind, MandateError, ManpageOptions, MdEvent, MdTag, TagKind,
};

fn opts() -> ManpageOptions {
    ManpageOptions::new("mandate", "1", "Test", None, None)
}

fn text(t: &str) -> Inline {
    Inline::Text(t.to_string())
}

fn para(t: &str) -> Block {
    Block::Paragraph(vec![text(t)])
}

fn code(t: &str) -> Block {
    Block::CodeBlock { text: t.to_string() }
}

fn render(blocks: Vec<Block>) -> String {
    render_roff(&Document { blocks }, &opts()).expect("render")
}

const HEADER: &str = ".TH \"mandate\" \"1\" \"Test\" \"\" \"\"\n";

#[test]
fn name_heading_renders_bold_program_and_description() {
    let roff = render(vec![Block::Heading {
        level: 1,
        content: vec![text("mandate(1) -- Example Tool")],
    }]);
    assert_eq!(
        roff,
        format!("{HEADER}.SH \"NAME\"\n\\fBmandate\\fR \\- Example Tool")
    );
}

#[test]
fn name_heading_without_separator() {
    let roff = render(vec![Block::Heading { level: 1, content: vec![text("tool(8)")] }]);
    assert_eq!(roff, format!("{HEADER}.SH \"NAME\"\n\\fBtool\\fR"));
}

#[test]
fn angle_brackets_become_italic_and_unclosed_stays() {
    let roff = render(vec![para("Use <arg> then <tail")]);
    assert_eq!(roff, format!("{HEADER}.P\nUse \\fIarg\\fR then <tail"));
    let roff = render(vec![para("a <b <c> d")]);
    assert_eq!(roff, format!("{HEADER}.P\na <b \\fIc\\fR d"));
}

#[test]
fn adjacent_code_blocks_merge_into_one_region() {
    let roff = render(vec![code("first"), code("second")]);
    assert_eq!(
        roff,
        format!("{HEADER}.IP \"\" 4\n.nf\nfirst\nsecond\n.fi\n.IP \"\" 0")
    );
    assert_eq!(roff.matches(".nf").count(), 1);
}

#[test]
fn code_block_text_is_minimally_escaped() {
    let roff = render(vec![code("a-b\\c 'd'.\n")]);
    assert_eq!(
        roff,
        format!("{HEADER}.IP \"\" 4\n.nf\na\\-b\\ec \\'d\\'\\.\n.fi\n.IP \"\" 0")
    );
}

#[test]
fn definition_list_takes_paragraph_but_not_the_example() {
    let item = ListItem { blocks: vec![para("Foo:")] };
    let roff = render(vec![
        Block::List { kind: ListKind::Unordered, items: vec![item] },
        para("Paragraph after foo."),
        code("example"),
    ]);
    assert_eq!(
        roff,
        format!("{HEADER}.TP\nFoo:\n.IP\nParagraph after foo\\.\n.IP \"\" 4\n.nf\nexample\n.fi\n.IP \"\" 0")
    );
}

#[test]
fn definition_list_absorbs_following_paragraphs() {
    let item = ListItem { blocks: vec![para("-v, --verbose:")] };
    let roff = render(vec![
        Block::List { kind: ListKind::Unordered, items: vec![item] },
        para("One."),
        para("Two."),
    ]);
    assert_eq!(
        roff,
        format!("{HEADER}.TP\n\\-v, \\-\\-verbose:\n.IP\nOne\\.\n.IP\nTwo\\.")
    );
}

#[test]
fn bulleted_list_layout() {
    let items = vec![
        ListItem { blocks: vec![Block::Paragraph(vec![text("a"), Inline::LineBreak(LineBreak::Hard), text("b")])] },
        ListItem { blocks: vec![para("c:"), para("d")] },
    ];
    let roff = render(vec![Block::List { kind: ListKind::Ordered { start: 3 }, items }]);
    assert_eq!(
        roff,
        format!("{HEADER}.IP \"\\(bu\" 4\na\nb\n.IP \"\\(bu\" 4\nc:\nd\n\n.IP \"\" 0")
    );
}

#[test]
fn bulleted_list_before_code_keeps_indent() {
    let items = vec![ListItem { blocks: vec![para("x")] }, ListItem { blocks: vec![para("y")] }];
    let roff = render(vec![Block::List { kind: ListKind::Unordered, items }, code("z")]);
    assert!(roff.contains("y\n.IP \"\" 4\n.nf"));
}

#[test]
fn headings_and_paragraph_spacing() {
    let roff = render(vec![
        Block::Heading { level: 2, content: vec![text("SECTION")] },
        para("first"),
        para("second"),
        Block::Heading { level: 3, content: vec![text("sub\nhead")] },
        para("third"),
    ]);
    assert_eq!(
        roff,
        format!("{HEADER}.SH \"SECTION\"\nfirst\n.P\nsecond\n.SS \"sub head\"\nthird")
    );
}

#[test]
fn inline_styles_and_links() {
    let roff = render(vec![Block::Paragraph(vec![
        Inline::Emphasis(vec![text("em")]),
        Inline::LineBreak(LineBreak::Soft),
        Inline::Strong(vec![text("st")]),
        Inline::LineBreak(LineBreak::Hard),
        Inline::Code("a  b".to_string()),
        Inline::Link {
            url: "https://x".to_string(),
            title: None,
            content: vec![text("link")],
        },
    ])]);
    assert_eq!(roff, format!("{HEADER}.P\n\\fIem\\fR \\fBst\\fR \\fBa  b\\fRlink"));
}

#[test]
fn escaped_dot_lines_get_a_zero_width_break() {
    let roff = render(vec![para(".x"), code(".y\n'z")]);
    for line in roff.lines() {
        assert!(!line.starts_with("\\."));
    }
    assert!(roff.contains("\n\\&\\.x\n"));
    assert!(roff.contains("\n\\&\\.y\n"));
}

#[test]
fn header_fields_are_sanitized() {
    let options = ManpageOptions::new("my-tool", "1", "A  tool", Some("User Cmds".to_string()), Some("v1.0".to_string()));
    let roff = render_roff(&Document { blocks: vec![] }, &options).unwrap();
    assert_eq!(roff, ".TH \"my\\-tool\" \"1\" \"A tool\" \"User Cmds\" \"v1\\.0\"");
}

fn start(t: MdTag) -> MdEvent {
    MdEvent::Start(t)
}

fn end(k: TagKind) -> MdEvent {
    MdEvent::End(k)
}

#[test]
fn leaf_blocks_give_one_block_each() {
    let events = vec![
        start(MdTag::Heading(2)),
        MdEvent::Text("T".to_string()),
        end(TagKind::Heading),
        start(MdTag::Paragraph),
        MdEvent::Text("a".to_string()),
        MdEvent::SoftBreak,
        MdEvent::Code("c".to_string()),
        end(TagKind::Paragraph),
        start(MdTag::CodeBlock),
        MdEvent::Text("x\n".to_string()),
        end(TagKind::CodeBlock),
    ];
    let doc = parse_events(&events).expect("assemble");
    assert_eq!(doc.blocks.len(), 3);
    assert!(matches!(doc.blocks[2], Block::CodeBlock { .. }));
}

#[test]
fn loose_inline_content_becomes_a_paragraph() {
    let events = vec![
        MdEvent::Text("loose".to_string()),
        start(MdTag::CodeBlock),
        end(TagKind::CodeBlock),
    ];
    let doc = parse_events(&events).expect("assemble");
    assert_eq!(doc.blocks.len(), 2);
    assert!(matches!(&doc.blocks[0], Block::Paragraph(v) if v.len() == 1));
}

#[test]
fn unsupported_tags_are_structural_errors() {
    for tag in [MdTag::Table, MdTag::TableHead, MdTag::TableRow, MdTag::TableCell, MdTag::FootnoteDefinition, MdTag::Strikethrough, MdTag::MetadataBlock] {
        let events = vec![start(MdTag::Paragraph), end(TagKind::Paragraph), start(tag)];
        assert!(matches!(parse_events(&events), Err(MandateError::Markdown(_))));
    }
    for kind in [TagKind::Table, TagKind::FootnoteDefinition, TagKind::Strikethrough, TagKind::MetadataBlock] {
        assert!(matches!(parse_events(&vec![end(kind)]), Err(MandateError::Markdown(_))));
    }
}

#[test]
fn unbalanced_streams_are_structural_errors() {
    assert!(matches!(parse_events(&vec![start(MdTag::Paragraph)]), Err(MandateError::Markdown(_))));
    assert!(matches!(parse_events(&vec![end(TagKind::Paragraph)]), Err(MandateError::Markdown(_))));
    let inside_list = vec![start(MdTag::List(None)), MdEvent::Text("x".to_string())];
    assert!(matches!(parse_events(&inside_list), Err(MandateError::Markdown(_))));
    let mismatched = vec![start(MdTag::Emphasis), end(TagKind::Strong)];
    assert!(matches!(parse_events(&mismatched), Err(MandateError::Markdown(_))));
}

#[test]
fn nested_structure_from_markdown() {
    let doc = parse_markdown("> quoted\n>\n> twice\n\n1. one\n2. two\n\n![alt *x*](u)\n").expect("parse");
    assert_eq!(doc.blocks.len(), 4);
    match &doc.blocks[2] {
        Block::List { kind, items } => {
            assert_eq!(*kind, ListKind::Ordered { start: 1 });
            assert_eq!(items.len(), 2);
        }
        other => panic!("unexpected block: {other:?}"),
    }
    match &doc.blocks[3] {
        Block::Paragraph(v) => assert!(matches!(&v[0], Inline::Text(t) if t == "alt x")),
        other => panic!("unexpected block: {other:?}"),
    }
}

#[test]
fn markdown_tables_are_not_tokenized_as_tables() {
    let doc = parse_markdown("| a | b |\n|---|---|\n").expect("plain CommonMark has no tables");
    assert_eq!(doc.blocks.len(), 1);
}

#[test]
fn whitespace_runs_become_one_space() {
    let roff = render(vec![para("a\t\tb \n c")]);
    assert_eq!(roff, format!("{HEADER}.P\na b c"));
    assert_eq!(mandate::sanitize("\t"), " ");
}

#[test]
fn a_list_counts_as_one_top_level_block() {
    let events = vec![
        start(MdTag::List(None)),
        start(MdTag::Item),
        MdEvent::Text("tight".to_string()),
        start(MdTag::List(Some(2))),
        start(MdTag::Item),
        start(MdTag::Paragraph),
        start(MdTag::Emphasis),
        MdEvent::Text("inner".to_string()),
        end(TagKind::Emphasis),
        end(TagKind::Paragraph),
        end(TagKind::Item),
        end(TagKind::List),
        end(TagKind::Item),
        end(TagKind::List),
        start(MdTag::Paragraph),
        MdEvent::Text("after".to_string()),
        end(TagKind::Paragraph),
    ];
    let doc = parse_events(&events).expect("assemble");
    assert_eq!(doc.blocks.len(), 2);
    match &doc.blocks[0] {
        Block::List { items, .. } => {
            assert_eq!(items.len(), 1);
            assert_eq!(items[0].blocks.len(), 2);
            assert!(matches!(items[0].blocks[1], Block::List { kind: ListKind::Ordered { start: 2 }, .. }));
        }
        other => panic!("unexpected block: {other:?}"),
    }
}

#[test]
fn block_quotes_splice_their_blocks() {
    let empty = vec![start(MdTag::BlockQuote), end(TagKind::BlockQuote)];
    assert_eq!(parse_events(&empty).expect("assemble").blocks.len(), 0);
    let two = vec![
        start(MdTag::BlockQuote),
        start(MdTag::Paragraph),
        end(TagKind::Paragraph),
        start(MdTag::Paragraph),
        end(TagKind::Paragraph),
        end(TagKind::BlockQuote),
    ];
    assert_eq!(parse_events(&two).expect("assemble").blocks.len(), 2);
}

#[test]
fn documents_clone_deeply() {
    let doc = parse_markdown("# a(1) - b\n\n- *x* [y](u)\n  1. z\n\n```\nc\n```\n").expect("parse");
    let copy = doc.clone();
    let options = opts();
    assert_eq!(render_roff(&doc, &options).unwrap(), render_roff(&copy, &options).unwrap());
    assert_eq!(format!("{doc:?}"), format!("{copy:?}"));
}

#[test]
fn heading_levels_outside_one_to_six_are_structural_errors() {
    for level in [0u8, 7, 255] {
        let events = vec![start(MdTag::Heading(level)), end(TagKind::Heading)];
        assert!(matches!(parse_events(&events), Err(MandateError::Markdown(_))));
    }
    let ok = vec![start(MdTag::Heading(6)), end(TagKind::Heading)];
    assert_eq!(parse_events(&ok).expect("level 6").blocks.len(), 1);
}
