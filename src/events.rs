//! Markdown parse events: the library's own event type, and the tokenizer
//! of `pulldown_cmark` that produces them.
use vstd::prelude::*;

verus! {

/// Which construct a start or end event opens or closes.
#[derive(Debug, Clone, Copy, PartialEq, Eq, Structural)]
pub enum TagKind {
    Paragraph,
    Heading,
    BlockQuote,
    CodeBlock,
    HtmlBlock,
    List,
    Item,
    FootnoteDefinition,
    Table,
    TableHead,
    TableRow,
    TableCell,
    Emphasis,
    Strong,
    Strikethrough,
    Link,
    Image,
    MetadataBlock,
}

/// A start tag with what the assembler reads of it.
#[derive(Debug)]
pub enum MdTag {
    Paragraph,
    Heading(u8),
    BlockQuote,
    CodeBlock,
    HtmlBlock,
    /// The start number of an ordered list; `None` for a bulleted one.
    List(Option<u64>),
    Item,
    FootnoteDefinition,
    Table,
    TableHead,
    TableRow,
    TableCell,
    Emphasis,
    Strong,
    Strikethrough,
    Link { url: String, title: String },
    Image { url: String, title: String },
    MetadataBlock,
}

/// One event of a CommonMark event stream.
#[derive(Debug)]
pub enum MdEvent {
    Start(MdTag),
    End(TagKind),
    Text(String),
    Code(String),
    Html(String),
    InlineHtml(String),
    FootnoteReference(String),
    SoftBreak,
    HardBreak,
    Rule,
    TaskListMarker(bool),
    InlineMath(String),
    DisplayMath(String),
}

/// `pulldown_cmark`'s string type, opaque: its text is read through `into_string`.
#[verifier::external_type_specification]
#[verifier::external_body]
pub struct ExCowStr<'a>(pulldown_cmark::CowStr<'a>);

// The event and tag types of `pulldown_cmark` are declared with their
// variants visible (their fields are public), so that the conversion below
// is verified code.
#[verifier::external_type_specification]
pub struct ExHeadingLevel(pulldown_cmark::HeadingLevel);

#[verifier::external_type_specification]
pub struct ExBlockQuoteKind(pulldown_cmark::BlockQuoteKind);

#[verifier::external_type_specification]
pub struct ExCodeBlockKind<'a>(pulldown_cmark::CodeBlockKind<'a>);

#[verifier::external_type_specification]
pub struct ExLinkType(pulldown_cmark::LinkType);

#[verifier::external_type_specification]
pub struct ExAlignment(pulldown_cmark::Alignment);

#[verifier::external_type_specification]
pub struct ExMetadataBlockKind(pulldown_cmark::MetadataBlockKind);

#[verifier::external_type_specification]
pub struct ExTag<'a>(pulldown_cmark::Tag<'a>);

#[verifier::external_type_specification]
pub struct ExTagEnd(pulldown_cmark::TagEnd);

#[verifier::external_type_specification]
pub struct ExEvent<'a>(pulldown_cmark::Event<'a>);

/// Relies on `CowStr::into_string`: the owned text of a parser string.
pub assume_specification<'a>[ pulldown_cmark::CowStr::<'a>::into_string ](
    s: pulldown_cmark::CowStr<'a>,
) -> String;

/// The number of a heading level, 1 to 6.
fn heading_level_to_u8(level: pulldown_cmark::HeadingLevel) -> (r: u8)
    ensures
        1 <= r <= 6,
{
    match level {
        pulldown_cmark::HeadingLevel::H1 => 1,
        pulldown_cmark::HeadingLevel::H2 => 2,
        pulldown_cmark::HeadingLevel::H3 => 3,
        pulldown_cmark::HeadingLevel::H4 => 4,
        pulldown_cmark::HeadingLevel::H5 => 5,
        pulldown_cmark::HeadingLevel::H6 => 6,
    }
}

/// The library's form of a start tag; link and image targets as owned text.
fn tag_of(tag: pulldown_cmark::Tag) -> (r: MdTag)
    ensures
        r matches MdTag::Heading(l) ==> 1 <= l <= 6,
{
    match tag {
        pulldown_cmark::Tag::Paragraph => MdTag::Paragraph,
        pulldown_cmark::Tag::Heading { level, .. } => MdTag::Heading(heading_level_to_u8(level)),
        pulldown_cmark::Tag::BlockQuote(_) => MdTag::BlockQuote,
        pulldown_cmark::Tag::CodeBlock(_) => MdTag::CodeBlock,
        pulldown_cmark::Tag::HtmlBlock => MdTag::HtmlBlock,
        pulldown_cmark::Tag::List(start) => MdTag::List(start),
        pulldown_cmark::Tag::Item => MdTag::Item,
        pulldown_cmark::Tag::FootnoteDefinition(_) => MdTag::FootnoteDefinition,
        pulldown_cmark::Tag::Table(_) => MdTag::Table,
        pulldown_cmark::Tag::TableHead => MdTag::TableHead,
        pulldown_cmark::Tag::TableRow => MdTag::TableRow,
        pulldown_cmark::Tag::TableCell => MdTag::TableCell,
        pulldown_cmark::Tag::Emphasis => MdTag::Emphasis,
        pulldown_cmark::Tag::Strong => MdTag::Strong,
        pulldown_cmark::Tag::Strikethrough => MdTag::Strikethrough,
        pulldown_cmark::Tag::Link { dest_url, title, .. } => MdTag::Link {
            url: dest_url.into_string(),
            title: title.into_string(),
        },
        pulldown_cmark::Tag::Image { dest_url, title, .. } => MdTag::Image {
            url: dest_url.into_string(),
            title: title.into_string(),
        },
        pulldown_cmark::Tag::MetadataBlock(_) => MdTag::MetadataBlock,
    }
}

/// The kind of construct an end tag closes.
fn tag_end_of(tag: pulldown_cmark::TagEnd) -> TagKind {
    match tag {
        pulldown_cmark::TagEnd::Paragraph => TagKind::Paragraph,
        pulldown_cmark::TagEnd::Heading(_) => TagKind::Heading,
        pulldown_cmark::TagEnd::BlockQuote => TagKind::BlockQuote,
        pulldown_cmark::TagEnd::CodeBlock => TagKind::CodeBlock,
        pulldown_cmark::TagEnd::HtmlBlock => TagKind::HtmlBlock,
        pulldown_cmark::TagEnd::List(_) => TagKind::List,
        pulldown_cmark::TagEnd::Item => TagKind::Item,
        pulldown_cmark::TagEnd::FootnoteDefinition => TagKind::FootnoteDefinition,
        pulldown_cmark::TagEnd::Table => TagKind::Table,
        pulldown_cmark::TagEnd::TableHead => TagKind::TableHead,
        pulldown_cmark::TagEnd::TableRow => TagKind::TableRow,
        pulldown_cmark::TagEnd::TableCell => TagKind::TableCell,
        pulldown_cmark::TagEnd::Emphasis => TagKind::Emphasis,
        pulldown_cmark::TagEnd::Strong => TagKind::Strong,
        pulldown_cmark::TagEnd::Strikethrough => TagKind::Strikethrough,
        pulldown_cmark::TagEnd::Link => TagKind::Link,
        pulldown_cmark::TagEnd::Image => TagKind::Image,
        pulldown_cmark::TagEnd::MetadataBlock(_) => TagKind::MetadataBlock,
    }
}

/// The library's form of one `pulldown_cmark` event.
fn event_of(event: pulldown_cmark::Event) -> (r: MdEvent)
    ensures
        r matches MdEvent::Start(MdTag::Heading(l)) ==> 1 <= l <= 6,
{
    match event {
        pulldown_cmark::Event::Start(tag) => MdEvent::Start(tag_of(tag)),
        pulldown_cmark::Event::End(tag) => MdEvent::End(tag_end_of(tag)),
        pulldown_cmark::Event::Text(t) => MdEvent::Text(t.into_string()),
        pulldown_cmark::Event::Code(t) => MdEvent::Code(t.into_string()),
        pulldown_cmark::Event::InlineMath(t) => MdEvent::InlineMath(t.into_string()),
        pulldown_cmark::Event::DisplayMath(t) => MdEvent::DisplayMath(t.into_string()),
        pulldown_cmark::Event::Html(t) => MdEvent::Html(t.into_string()),
        pulldown_cmark::Event::InlineHtml(t) => MdEvent::InlineHtml(t.into_string()),
        pulldown_cmark::Event::FootnoteReference(t) => MdEvent::FootnoteReference(t.into_string()),
        pulldown_cmark::Event::SoftBreak => MdEvent::SoftBreak,
        pulldown_cmark::Event::HardBreak => MdEvent::HardBreak,
        pulldown_cmark::Event::Rule => MdEvent::Rule,
        pulldown_cmark::Event::TaskListMarker(checked) => MdEvent::TaskListMarker(checked),
    }
}

/// The events that the CommonMark tokenizer reports for a text, with no
/// extension enabled, each in the form [`event_of`] gives it.
pub uninterp spec fn commonmark_events(text: Seq<char>) -> Seq<MdEvent>;

/// Relies on `pulldown_cmark::Parser::new_ext` with `Options::empty()`: the
/// event stream of the text, which depends on the text alone.
#[verifier::external_body]
pub(crate) fn markdown_events(markdown: &str) -> (r: Vec<MdEvent>)
    ensures
        r@ == commonmark_events(markdown@),
{
    pulldown_cmark::Parser::new_ext(markdown, pulldown_cmark::Options::empty()).map(event_of).collect()
}

} // verus!
