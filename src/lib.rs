//! Converts Markdown, or a YAML manual description, into a roff manual page.
//!
//! Markdown goes through a CommonMark tokenizer into a stream of events, the
//! assembler folds the events into a [`Document`], and the renderer writes the
//! document as roff. A YAML manual description is first turned into Markdown.
use vstd::prelude::*;

pub mod assemble;
pub mod convert;
pub mod document;
pub mod error;
pub mod escape;
pub mod events;
pub mod roff;
pub mod schema;
pub mod text;
pub mod yaml;

pub use assemble::{parse_events, parse_markdown};
pub use convert::{
    InputKind, convert_auto, convert_markdown_to_roff, convert_yaml_to_roff, input_kind,
    parse_yaml_to_document,
};
pub use document::{Block, Document, Inline, LineBreak, ListItem, ListKind};
pub use error::MandateError;
pub use escape::sanitize;
pub use events::{MdEvent, MdTag, TagKind};
pub use roff::{ManpageOptions, render_roff, split_name_description};
pub use schema::{BUILTIN_SCHEMA, validate_yaml_with_schema_str};
pub use yaml::{
    YamlNode, convert_yaml_to_markdown, dedent_body, ensure_mapping, manual_markdown,
    map_get_sequence, map_get_string, section_markdown, yaml_type_name, yaml_value_to_string,
};

verus! {

} // verus!
