//! The conversions from input text to a manual page, and the choice of input kind.
use vstd::prelude::*;
use crate::assemble::{assemble, parse_markdown};
use crate::document::Document;
use crate::error::MandateError;
use crate::events::commonmark_events;
use crate::roff::{ManpageOptions, render_roff, roff};
use crate::schema::{has_document, schema_verdict, validate_yaml_with_schema_str};
use crate::text::chars_of;
use crate::yaml::{convert_yaml_to_markdown, yaml_markdown};

verus! {

/// The manual page of a Markdown text; `None` where its structure is malformed or unsupported.
pub open spec fn markdown_roff(markdown: Seq<char>, o: ManpageOptions) -> Option<Seq<char>> {
    match assemble(commonmark_events(markdown)) {
        Some(bs) => Some(roff(bs, o)),
        None => None,
    }
}

/// Converts Markdown text into a manual page.
pub fn convert_markdown_to_roff(markdown: &str, options: &ManpageOptions) -> (r: Result<
    String,
    MandateError,
>)
    ensures
        match markdown_roff(markdown@, *options) {
            Some(s) => r matches Ok(t) && t@ == s,
            None => r matches Err(e) && e is Markdown,
        },
{
    let document = match parse_markdown(markdown) {
        Ok(d) => d,
        Err(e) => return Err(e),
    };
    render_roff(&document, options)
}

/// Parses a YAML manual description into a document.
pub fn parse_yaml_to_document(yaml: &str) -> (r: Result<Document, MandateError>)
    ensures
        match yaml_markdown(yaml@) {
            Ok(md) => match assemble(commonmark_events(md)) {
                Some(bs) => r matches Ok(d) && d@ == bs,
                None => r matches Err(e) && e is Markdown,
            },
            Err(m) => r matches Err(MandateError::Yaml(msg)) && msg@ == m,
        },
{
    let markdown = match convert_yaml_to_markdown(yaml) {
        Ok(m) => m,
        Err(e) => return Err(e),
    };
    parse_markdown(markdown.as_str())
}

/// Converts a YAML manual description into a manual page.
pub fn convert_yaml_to_roff(yaml: &str, options: &ManpageOptions) -> (r: Result<
    String,
    MandateError,
>)
    ensures
        match yaml_markdown(yaml@) {
            Ok(md) => match markdown_roff(md, *options) {
                Some(s) => r matches Ok(t) && t@ == s,
                None => r matches Err(e) && e is Markdown,
            },
            Err(m) => r matches Err(MandateError::Yaml(msg)) && msg@ == m,
        },
{
    let markdown = match convert_yaml_to_markdown(yaml) {
        Ok(m) => m,
        Err(e) => return Err(e),
    };
    convert_markdown_to_roff(markdown.as_str(), options)
}

/// The result of converting a text as a YAML manual description, as
/// [`convert_yaml_to_roff`] gives it: the page, or the error and its message
/// where the message is known.
pub open spec fn yaml_result_is(yaml: Seq<char>, o: ManpageOptions, r: Result<String, MandateError>) -> bool {
    match yaml_markdown(yaml) {
        Ok(md) => match markdown_roff(md, o) {
            Some(s) => r matches Ok(t) && t@ == s,
            None => r matches Err(e) && e is Markdown,
        },
        Err(m) => r matches Err(MandateError::Yaml(msg)) && msg@ == m,
    }
}

/// The result of converting a text as Markdown.
pub open spec fn markdown_result_is(markdown: Seq<char>, o: ManpageOptions, r: Result<String, MandateError>) -> bool {
    match markdown_roff(markdown, o) {
        Some(s) => r matches Ok(t) && t@ == s,
        None => r matches Err(e) && e is Markdown,
    }
}

/// Converts text whose kind is not known: as YAML first, and as Markdown only
/// where the YAML stage reports a YAML-class error (the text does not load, or
/// does not have the manual's shape); a structural error in the Markdown that
/// the YAML gives is returned. With a schema, the text is validated first:
/// a text that does not load as YAML falls back to Markdown, and a schema
/// that does not load or rejects the text is a schema error.
pub fn convert_auto(input: &str, options: &ManpageOptions, schema: Option<&str>) -> (r: Result<
    String,
    MandateError,
>)
    ensures
        schema is None ==> if yaml_markdown(input@) is Ok {
            yaml_result_is(input@, *options, r)
        } else {
            markdown_result_is(input@, *options, r)
        },
        schema is Some && !has_document(input@) ==> markdown_result_is(
            input@,
            *options,
            r,
        ),
        schema is Some && has_document(input@) && !has_document(schema->Some_0@) ==> r matches Err(
            MandateError::Schema(_),
        ),
        schema is Some && has_document(input@) && has_document(schema->Some_0@) ==> if schema_verdict(
            input@,
            schema->Some_0@,
        ) {
            yaml_result_is(input@, *options, r)
        } else {
            r matches Err(MandateError::Schema(_))
        },
{
    match schema {
        None => match convert_yaml_to_roff(input, options) {
            Ok(s) => Ok(s),
            Err(MandateError::Yaml(_)) => convert_markdown_to_roff(input, options),
            Err(e) => Err(e),
        },
        Some(source) => match validate_yaml_with_schema_str(input, source) {
            Ok(()) => convert_yaml_to_roff(input, options),
            Err(MandateError::Yaml(_)) => convert_markdown_to_roff(input, options),
            Err(e) => Err(e),
        },
    }
}

/// How an input is read.
#[derive(Debug, Clone, Copy, PartialEq, Eq, Structural)]
pub enum InputKind {
    Yaml,
    Markdown,
    /// Standard input or another extension: YAML tried first, then Markdown.
    Auto,
}

/// Whether `c` is `t` up to ASCII case, for a lower-case `t`.
pub open spec fn same_ascii_lower(c: char, t: char) -> bool {
    c == t || ('a' <= t <= 'z' && (c as u32) + 32 == t as u32)
}

/// Whether `s` ends with the lower-case `suffix`, ignoring ASCII case.
pub open spec fn ends_with_lower(s: Seq<char>, suffix: Seq<char>) -> bool {
    suffix.len() <= s.len() && forall|i: int|
        0 <= i < suffix.len() ==> same_ascii_lower(
            #[trigger] s[s.len() - suffix.len() + i],
            suffix[i],
        )
}

/// The kind of input a path names: `.yaml` and `.yml` are YAML, `.md` and
/// `.markdown` are Markdown (extensions in any ASCII case); standard input
/// (`-`) and anything else are detected from the text.
pub open spec fn kind_of_path(path: Seq<char>) -> InputKind {
    if path == seq!['-'] {
        InputKind::Auto
    } else if ends_with_lower(path, ".yaml"@) || ends_with_lower(path, ".yml"@) {
        InputKind::Yaml
    } else if ends_with_lower(path, ".md"@) || ends_with_lower(path, ".markdown"@) {
        InputKind::Markdown
    } else {
        InputKind::Auto
    }
}

fn ends_with_lower_exec(s: &Vec<char>, suffix: &str) -> (r: bool)
    ensures
        r == ends_with_lower(s@, suffix@),
{
    let t = chars_of(suffix);
    if t.len() > s.len() {
        return false;
    }
    let base = s.len() - t.len();
    let mut i: usize = 0;
    while i < t.len()
        invariant
            t@ == suffix@,
            t.len() <= s.len(),
            base == s.len() - t.len(),
            i <= t.len(),
            forall|j: int| 0 <= j < i ==> same_ascii_lower(#[trigger] s@[base + j], t@[j]),
        decreases t.len() - i,
    {
        let c = s[base + i];
        let want = t[i];
        let same = c == want || ('a' <= want && want <= 'z' && c as u32 == (want as u32) - 32);
        if !same {
            assert(!same_ascii_lower(s@[s.len() - suffix@.len() + i], suffix@[i as int]));
            return false;
        }
        i = i + 1;
    }
    true
}

/// The kind of input a path names.
pub fn input_kind(path: &str) -> (r: InputKind)
    ensures
        r == kind_of_path(path@),
{
    let p = chars_of(path);
    if p.len() == 1 && p[0] == '-' {
        assert(p@ =~= seq!['-']);
        return InputKind::Auto;
    }
    assert(p@ != seq!['-']);
    if ends_with_lower_exec(&p, ".yaml") || ends_with_lower_exec(&p, ".yml") {
        InputKind::Yaml
    } else if ends_with_lower_exec(&p, ".md") || ends_with_lower_exec(&p, ".markdown") {
        InputKind::Markdown
    } else {
        InputKind::Auto
    }
}

} // verus!
