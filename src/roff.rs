//! The roff renderer: walks a document and writes a manual page.
use vstd::prelude::*;
use crate::document::{
    Block, BlockModel, Document, Inline, InlineModel, LineBreak, ListItem, blocks_view, block_view,
    flatten, inlines_view, item_view, items_view, opt_view, inline_text,
    lemma_inline_children, lemma_list_items,
};
use crate::error::MandateError;
use crate::escape::{
    base_sanitize, bold, code_sanitize, heading_sanitize, italic, sanitize_spec, sanitize_chars,
    base_sanitize_chars, code_sanitize_chars, heading_sanitize_chars,
};
use crate::text::{
    chars_of, ends_with_char, extend, extend_str, find, find_exec, join, split_on, starts_with,
    string_of, trim, trim_chars, slice_chars, lemma_split_on_nonempty, free_of,
    lemma_split_parts_free, lemma_split_join,
};

verus! {

/// What the header line of a manual page carries.
#[derive(Debug, Clone)]
pub struct ManpageOptions {
    pub program: String,
    pub section: String,
    pub title: String,
    pub manual_section: Option<String>,
    pub source: Option<String>,
}

impl ManpageOptions {
    pub fn new(
        program: &str,
        section: &str,
        title: &str,
        manual_section: Option<String>,
        source: Option<String>,
    ) -> (r: Self)
        ensures
            r.program@ == program@,
            r.section@ == section@,
            r.title@ == title@,
            r.manual_section == manual_section,
            r.source == source,
    {
        ManpageOptions {
            program: program.to_owned(),
            section: section.to_owned(),
            title: title.to_owned(),
            manual_section,
            source,
        }
    }
}

pub open spec fn nl() -> Seq<char> {
    seq!['\n']
}

// ----- inline content -----

pub open spec fn inline_out(i: InlineModel, in_list: bool) -> Seq<char> {
    match i {
        InlineModel::Text(t) => sanitize_spec(t),
        InlineModel::Code(t) => bold(code_sanitize(t)),
        InlineModel::Emphasis(c) => italic(sanitize_spec(flatten(c))),
        InlineModel::Strong(c) => bold(sanitize_spec(flatten(c))),
        InlineModel::Link { content, .. } => sanitize_spec(flatten(content)),
        InlineModel::LineBreak(LineBreak::Soft) => seq![' '],
        InlineModel::LineBreak(LineBreak::Hard) => if in_list {
            nl()
        } else {
            seq![' ']
        },
    }
}

/// Inline content as roff text; hard breaks are newlines only in a list item's
/// first paragraph.
pub open spec fn inlines_out(s: Seq<InlineModel>, in_list: bool) -> Seq<char>
    decreases s.len(),
{
    if s.len() == 0 {
        Seq::empty()
    } else {
        inlines_out(s.drop_last(), in_list) + inline_out(s.last(), in_list)
    }
}

// ----- headings -----

/// The text before the first `(`, or all of it.
pub open spec fn before_paren(s: Seq<char>) -> Seq<char> {
    match find(s, seq!['(']) {
        Some(i) => s.take(i),
        None => s,
    }
}

pub open spec fn sep_long() -> Seq<char> {
    seq![' ', '-', '-', ' ']
}

pub open spec fn sep_short() -> Seq<char> {
    seq![' ', '-', ' ']
}

pub open spec fn sep_dash() -> Seq<char> {
    seq![' ', '\u{2014}', ' ']
}

/// Split at the first occurrence of `sep`, both sides trimmed, the name side
/// without a parenthesized suffix.
pub open spec fn split_at_sep(text: Seq<char>, sep: Seq<char>, i: int) -> (Seq<char>, Seq<char>) {
    (trim(before_paren(trim(text.take(i)))), trim(text.skip(i + sep.len())))
}

/// A NAME line's text as program name and description: split on the first
/// of " -- ", " - ", " \u{2014} " that occurs.
pub open spec fn split_name(text: Seq<char>) -> (Seq<char>, Seq<char>) {
    if let Some(i) = find(text, sep_long()) {
        split_at_sep(text, sep_long(), i)
    } else if let Some(i) = find(text, sep_short()) {
        split_at_sep(text, sep_short(), i)
    } else if let Some(i) = find(text, sep_dash()) {
        split_at_sep(text, sep_dash(), i)
    } else {
        (trim(before_paren(text)), Seq::empty())
    }
}

pub open spec fn name_line(name: Seq<char>, desc: Seq<char>) -> Seq<char> {
    if sanitize_spec(desc).len() == 0 {
        bold(sanitize_spec(name)) + nl()
    } else {
        bold(sanitize_spec(name)) + " \\- "@ + sanitize_spec(desc) + nl()
    }
}

pub open spec fn heading_out(level: u8, content: Seq<InlineModel>) -> Seq<char> {
    let text = flatten(content);
    if level == 1 {
        ".SH \"NAME\"\n"@ + name_line(split_name(text).0, split_name(text).1)
    } else if level == 2 {
        ".SH \""@ + sanitize_spec(text) + "\"\n"@
    } else {
        ".SS \""@ + heading_sanitize(text) + "\"\n"@
    }
}

// ----- code blocks -----

/// The index just past the run of code blocks that starts at `j`.
pub open spec fn code_run_end(bs: Seq<BlockModel>, j: int) -> int
    decreases bs.len() - j,
{
    if 0 <= j < bs.len() && bs[j] is CodeBlock {
        code_run_end(bs, j + 1)
    } else {
        j
    }
}

/// The texts of the code blocks `lo..hi`, joined by newlines.
pub open spec fn merged_code(bs: Seq<BlockModel>, lo: int, hi: int) -> Seq<char>
    decreases hi - lo,
{
    if hi <= lo {
        Seq::empty()
    } else if hi == lo + 1 {
        bs[lo]->CodeBlock_text
    } else {
        merged_code(bs, lo, hi - 1) + nl() + bs[hi - 1]->CodeBlock_text
    }
}

pub proof fn lemma_code_run_end(bs: Seq<BlockModel>, j: int)
    requires
        0 <= j <= bs.len(),
    ensures
        j <= code_run_end(bs, j) <= bs.len(),
        j < bs.len() && bs[j] is CodeBlock ==> j < code_run_end(bs, j),
        forall|k: int| j <= k < code_run_end(bs, j) ==> #[trigger] bs[k] is CodeBlock,
        code_run_end(bs, j) < bs.len() ==> !(bs[code_run_end(bs, j)] is CodeBlock),
    decreases bs.len() - j,
{
    if j < bs.len() && bs[j] is CodeBlock {
        lemma_code_run_end(bs, j + 1);
    }
}

pub open spec fn code_out(text: Seq<char>) -> Seq<char> {
    ".IP \"\" 4\n"@ + ".nf\n"@ + base_sanitize(text) + (if ends_with_char(text, '\n') {
        Seq::empty()
    } else {
        nl()
    }) + ".fi\n"@ + ".IP \"\" 0\n"@
}

// ----- lists -----

/// A definition-style list: one item, made of one paragraph whose text ends in a colon.
pub open spec fn is_special(items: Seq<Seq<BlockModel>>) -> bool {
    &&& items.len() == 1
    &&& items[0].len() == 1
    &&& items[0][0] is Paragraph
    &&& ends_with_char(trim(flatten(items[0][0]->Paragraph_0)), ':')
}

/// How many paragraphs from `j` on a definition-style list takes in: the run
/// of paragraphs that starts there, up to the first block of another kind.
pub open spec fn absorbed(bs: Seq<BlockModel>, j: int) -> nat
    decreases bs.len() - j,
{
    if 0 <= j < bs.len() && bs[j] is Paragraph {
        1 + absorbed(bs, j + 1)
    } else {
        0
    }
}

pub proof fn lemma_absorbed_bound(bs: Seq<BlockModel>, j: int)
    requires
        0 <= j <= bs.len(),
    ensures
        j + absorbed(bs, j) <= bs.len(),
    decreases bs.len() - j,
{
    if j < bs.len() && bs[j] is Paragraph {
        lemma_absorbed_bound(bs, j + 1);
    }
}

/// The paragraphs `j..j+n` as indented continuation lines.
pub open spec fn absorbed_out(bs: Seq<BlockModel>, j: int, n: nat) -> Seq<char>
    decreases n,
{
    if n == 0 {
        Seq::empty()
    } else {
        absorbed_out(bs, j, (n - 1) as nat) + ".IP\n"@ + inlines_out(bs[j + n - 1]->Paragraph_0, false)
            + nl()
    }
}

pub open spec fn ensure_newline(out: Seq<char>) -> Seq<char> {
    if ends_with_char(out, '\n') {
        out
    } else {
        out.push('\n')
    }
}

pub open spec fn next_is_code(bs: Seq<BlockModel>, j: int) -> bool {
    0 <= j < bs.len() && bs[j] is CodeBlock
}

/// How many blocks after a list the list consumes.
pub open spec fn list_consumed(items: Seq<Seq<BlockModel>>, bs: Seq<BlockModel>, j: int) -> nat {
    if is_special(items) {
        absorbed(bs, j)
    } else {
        0
    }
}

/// The output after the blocks of `bs` from `idx` on; `in_item` for the blocks
/// of a list item, `last_heading` after a level 2 or 3 heading.
pub open spec fn blocks_out(
    out: Seq<char>,
    bs: Seq<BlockModel>,
    idx: int,
    in_item: bool,
    last_heading: bool,
) -> Seq<char>
    decreases bs, bs.len() - idx,
{
    if idx < 0 || idx >= bs.len() {
        out
    } else {
        match bs[idx] {
            BlockModel::Heading { level, content } => blocks_out(
                out + heading_out(level, content),
                bs,
                idx + 1,
                in_item,
                level == 2 || level == 3,
            ),
            BlockModel::Paragraph(c) => blocks_out(
                out + (if !in_item && !last_heading {
                    ".P\n"@
                } else {
                    Seq::empty()
                }) + inlines_out(c, false) + nl(),
                bs,
                idx + 1,
                in_item,
                false,
            ),
            BlockModel::List { items, .. } => {
                proof {
                    lemma_absorbed_bound(bs, idx + 1);
                }
                blocks_out(
                    list_out(out, items, bs, idx + 1),
                    bs,
                    idx + 1 + list_consumed(items, bs, idx + 1),
                    in_item,
                    false,
                )
            },
            BlockModel::CodeBlock { .. } => {
                proof {
                    lemma_code_run_end(bs, idx);
                }
                let end = code_run_end(bs, idx);
                blocks_out(out + code_out(merged_code(bs, idx, end)), bs, end, in_item, false)
            },
        }
    }
}

/// The output after a list whose following siblings start at `j` in `bs`,
/// with the paragraphs a definition-style list takes in.
pub open spec fn list_out(
    out: Seq<char>,
    items: Seq<Seq<BlockModel>>,
    bs: Seq<BlockModel>,
    j: int,
) -> Seq<char>
    decreases items, items.len() + 1,
{
    if is_special(items) {
        ensure_newline(item_out(out + ".TP\n"@, items[0])) + absorbed_out(bs, j, absorbed(bs, j))
    } else {
        let o = bullets_out(out, items, 0);
        if next_is_code(bs, j) {
            o
        } else {
            o + ".IP \"\" 0\n"@
        }
    }
}

/// The output after the items of a bulleted list from `k` on.
pub open spec fn bullets_out(out: Seq<char>, items: Seq<Seq<BlockModel>>, k: int) -> Seq<char>
    decreases items, items.len() - k,
{
    if k < 0 || k >= items.len() {
        out
    } else {
        bullets_out(item_out(out + ".IP \"\\(bu\" 4\n"@, items[k]) + nl(), items, k + 1)
    }
}

/// The output after a list item: a first paragraph right after the tag line,
/// the remaining blocks as blocks of an item.
pub open spec fn item_out(out: Seq<char>, it: Seq<BlockModel>) -> Seq<char>
    decreases it, it.len() + 1,
{
    if it.len() == 0 {
        out
    } else if it[0] is Paragraph {
        let o = out + inlines_out(it[0]->Paragraph_0, true) + (if it.len() > 1 {
            nl()
        } else {
            Seq::empty()
        });
        blocks_out(o, it, 1, true, false)
    } else {
        blocks_out(out, it, 0, true, false)
    }
}

// ----- the page -----

pub open spec fn quoted_field(v: Option<Seq<char>>) -> Seq<char> {
    match v {
        Some(t) => "\""@ + sanitize_spec(t) + "\""@,
        None => "\"\""@,
    }
}

/// The title-heading line.
pub open spec fn header_out(o: ManpageOptions) -> Seq<char> {
    ".TH \""@ + sanitize_spec(o.program@) + "\" \""@ + sanitize_spec(o.section@) + "\" \""@
        + sanitize_spec(o.title@) + "\" "@ + quoted_field(opt_view(o.manual_section)) + " "@
        + quoted_field(opt_view(o.source)) + nl()
}

pub open spec fn strip_cr(l: Seq<char>) -> Seq<char> {
    if ends_with_char(l, '\r') {
        l.drop_last()
    } else {
        l
    }
}

/// The lines of a text as `str::lines` gives them: split at each newline, a
/// carriage return before it dropped, no empty line after a final newline.
pub open spec fn lines(s: Seq<char>) -> Seq<Seq<char>> {
    let parts = split_on(s, '\n');
    let done = parts.drop_last().map_values(|l: Seq<char>| strip_cr(l));
    if parts.last().len() > 0 {
        done.push(parts.last())
    } else {
        done
    }
}

/// A line that starts with an escaped dot gets a zero-width break in front.
pub open spec fn guard_line(l: Seq<char>) -> Seq<char> {
    if starts_with(l, seq!['\\', '.']) {
        seq!['\\', '&'] + l
    } else {
        l
    }
}

/// The final pass over the whole output.
pub open spec fn finish_out(s: Seq<char>) -> Seq<char> {
    join(lines(s).map_values(|l: Seq<char>| guard_line(l)), nl())
}

/// The manual page of a document.
pub open spec fn roff(doc: Seq<BlockModel>, o: ManpageOptions) -> Seq<char> {
    finish_out(blocks_out(header_out(o), doc, 0, false, false))
}

// ----- the writer -----

struct RoffWriter {
    output: Vec<char>,
}

impl RoffWriter {
    fn new() -> (r: Self)
        ensures
            r.output@ == Seq::<char>::empty(),
    {
        RoffWriter { output: Vec::new() }
    }

    fn write_raw(&mut self, text: &str)
        ensures
            final(self).output@ == old(self).output@ + text@,
    {
        extend_str(&mut self.output, text);
    }

    fn write_chars(&mut self, text: &Vec<char>)
        ensures
            final(self).output@ == old(self).output@ + text@,
    {
        extend(&mut self.output, text);
    }

    fn ensure_newline(&mut self)
        ensures
            final(self).output@ == ensure_newline(old(self).output@),
    {
        let n = self.output.len();
        if n == 0 || self.output[n - 1] != '\n' {
            self.output.push('\n');
        }
    }

    fn write_header(&mut self, options: &ManpageOptions)
        ensures
            final(self).output@ == old(self).output@ + header_out(*options),
    {
        self.write_raw(".TH \"");
        self.write_chars(&sanitize_chars(&chars_of(options.program.as_str())));
        self.write_raw("\" \"");
        self.write_chars(&sanitize_chars(&chars_of(options.section.as_str())));
        self.write_raw("\" \"");
        self.write_chars(&sanitize_chars(&chars_of(options.title.as_str())));
        self.write_raw("\" ");
        self.write_field(&options.manual_section);
        self.write_raw(" ");
        self.write_field(&options.source);
        self.output.push('\n');
        assert(self.output@ =~= old(self).output@ + header_out(*options));
    }

    fn write_field(&mut self, v: &Option<String>)
        ensures
            final(self).output@ == old(self).output@ + quoted_field(opt_view(*v)),
    {
        match v {
            Some(t) => {
                self.write_raw("\"");
                self.write_chars(&sanitize_chars(&chars_of(t.as_str())));
                self.write_raw("\"");
                assert(self.output@ =~= old(self).output@ + quoted_field(opt_view(*v)));
            },
            None => {
                self.write_raw("\"\"");
            },
        }
    }

    fn write_inlines(&mut self, inlines: &Vec<Inline>, in_list: bool)
        ensures
            final(self).output@ == old(self).output@ + inlines_out(inlines_view(inlines@), in_list),
    {
        let ghost v = inlines_view(inlines@);
        let mut k: usize = 0;
        assert(v.take(0) =~= Seq::empty());
        while k < inlines.len()
            invariant
                k <= inlines.len(),
                v == inlines_view(inlines@),
                self.output@ == old(self).output@ + inlines_out(v.take(k as int), in_list),
            decreases inlines.len() - k,
        {
            let ghost before = self.output@;
            proof {
                lemma_inline_children(inlines[k as int]);
            }
            match &inlines[k] {
                Inline::Text(t) => {
                    self.write_chars(&sanitize_chars(&chars_of(t.as_str())));
                },
                Inline::Code(t) => {
                    self.write_raw("\\fB");
                    self.write_chars(&code_sanitize_chars(&chars_of(t.as_str())));
                    self.write_raw("\\fR");
                },
                Inline::Emphasis(c) => {
                    self.write_raw("\\fI");
                    self.write_chars(&sanitize_chars(&inline_text(c)));
                    self.write_raw("\\fR");
                },
                Inline::Strong(c) => {
                    self.write_raw("\\fB");
                    self.write_chars(&sanitize_chars(&inline_text(c)));
                    self.write_raw("\\fR");
                },
                Inline::Link { content, .. } => {
                    self.write_chars(&sanitize_chars(&inline_text(content)));
                },
                Inline::LineBreak(LineBreak::Soft) => {
                    self.write_raw(" ");
                },
                Inline::LineBreak(LineBreak::Hard) => {
                    if in_list {
                        self.write_raw("\n");
                    } else {
                        self.write_raw(" ");
                    }
                },
            }
            proof {
                reveal_strlit("\\fB");
                reveal_strlit("\\fI");
                reveal_strlit("\\fR");
                reveal_strlit(" ");
                reveal_strlit("\n");
            }
            assert(self.output@ =~= before + inline_out(v[k as int], in_list));
            assert(v.take(k + 1).drop_last() =~= v.take(k as int));
            k = k + 1;
        }
        assert(v.take(k as int) =~= v);
    }

    fn write_blocks(&mut self, blocks: &Vec<Block>, start: usize, in_item: bool)
        ensures
            final(self).output@ == blocks_out(
                old(self).output@,
                blocks_view(blocks@),
                start as int,
                in_item,
                false,
            ),
        decreases blocks,
    {
        let ghost bv = blocks_view(blocks@);
        let mut idx: usize = start;
        let mut last_heading = false;
        while idx < blocks.len()
            invariant
                bv == blocks_view(blocks@),
                blocks_out(old(self).output@, bv, start as int, in_item, false) == blocks_out(
                    self.output@,
                    bv,
                    idx as int,
                    in_item,
                    last_heading,
                ),
            decreases blocks.len() - idx,
        {
            let ghost out0 = self.output@;
            proof {
                lemma_list_items(blocks@[idx as int]);
            }
            match &blocks[idx] {
                Block::Heading { level, content } => {
                    self.write_heading(*level, content);
                    last_heading = *level == 2 || *level == 3;
                    idx = idx + 1;
                },
                Block::Paragraph(inlines) => {
                    if !in_item && !last_heading {
                        self.write_raw(".P\n");
                    }
                    self.write_inlines(inlines, false);
                    self.write_raw("\n");
                    proof {
                        reveal_strlit("\n");
                    }
                    assert(self.output@ =~= out0 + (if !in_item && !last_heading {
                        ".P\n"@
                    } else {
                        Seq::empty()
                    }) + inlines_out(inlines_view(inlines@), false) + nl());
                    last_heading = false;
                    idx = idx + 1;
                },
                Block::List { items, .. } => {
                    proof {
                        lemma_absorbed_bound(bv, idx + 1);
                    }
                    let consumed = self.write_list(items, blocks, idx + 1);
                    idx = idx + 1 + consumed;
                    last_heading = false;
                },
                Block::CodeBlock { .. } => {
                    proof {
                        lemma_code_run_end(bv, idx as int);
                    }
                    let mut combined: Vec<char> = Vec::new();
                    let mut offset: usize = idx;
                    while offset < blocks.len() && is_code(&blocks[offset])
                        invariant
                            bv == blocks_view(blocks@),
                            idx < blocks.len(),
                            idx <= offset <= blocks.len(),
                            code_run_end(bv, idx as int) == code_run_end(bv, offset as int),
                            combined@ == merged_code(bv, idx as int, offset as int),
                        decreases blocks.len() - offset,
                    {
                        if offset > idx {
                            combined.push('\n');
                        }
                        match &blocks[offset] {
                            Block::CodeBlock { text } => {
                                let t = chars_of(text.as_str());
                                extend(&mut combined, &t);
                            },
                            _ => {},
                        }
                        offset = offset + 1;
                    }
                    self.write_raw(".IP \"\" 4\n");
                    self.write_raw(".nf\n");
                    self.write_chars(&base_sanitize_chars(&combined));
                    if combined.len() == 0 || combined[combined.len() - 1] != '\n' {
                        self.write_raw("\n");
                    }
                    self.write_raw(".fi\n");
                    self.write_raw(".IP \"\" 0\n");
                    proof {
                        reveal_strlit("\n");
                    }
                    assert(self.output@ =~= out0 + code_out(merged_code(bv, idx as int, offset as int)));
                    idx = offset;
                    last_heading = false;
                },
            }
        }
    }

    fn write_list(&mut self, items: &Vec<ListItem>, blocks: &Vec<Block>, next: usize) -> (consumed: usize)
        requires
            next <= blocks.len(),
        ensures
            consumed == list_consumed(items_view(items@), blocks_view(blocks@), next as int),
            final(self).output@ == list_out(
                old(self).output@,
                items_view(items@),
                blocks_view(blocks@),
                next as int,
            ),
        decreases items,
    {
        let ghost iv = items_view(items@);
        let ghost bv = blocks_view(blocks@);
        if is_special_list(items) {
            self.write_raw(".TP\n");
            self.write_list_item(&items[0]);
            self.ensure_newline();
            let ghost base = self.output@;
            let mut consumed: usize = 0;
            let mut go = true;
            proof {
                lemma_absorbed_bound(bv, next as int);
            }
            while go && next + consumed < blocks.len()
                invariant
                    bv == blocks_view(blocks@),
                    next <= blocks.len(),
                    next + absorbed(bv, next as int) <= blocks.len(),
                    absorbed(bv, next as int) == consumed + absorbed(bv, next + consumed),
                    !go ==> absorbed(bv, next + consumed) == 0,
                    self.output@ == base + absorbed_out(bv, next as int, consumed as nat),
                decreases blocks.len() - next - consumed + (if go { 1int } else { 0int }),
            {
                let j = next + consumed;
                match &blocks[j] {
                    Block::Paragraph(inlines) => {
                        let ghost o = self.output@;
                        self.write_raw(".IP\n");
                        self.write_inlines(inlines, false);
                        self.write_raw("\n");
                        proof {
                            reveal_strlit("\n");
                        }
                        assert(self.output@ =~= o + ".IP\n"@ + inlines_out(bv[j as int]->Paragraph_0, false) + nl());
                        consumed = consumed + 1;
                    },
                    _ => {
                        go = false;
                    },
                }
            }
            consumed
        } else {
            let mut k: usize = 0;
            while k < items.len()
                invariant
                    iv == items_view(items@),
                    bullets_out(old(self).output@, iv, 0) == bullets_out(self.output@, iv, k as int),
                decreases items.len() - k,
            {
                let ghost o = self.output@;
                self.write_raw(".IP \"\\(bu\" 4\n");
                self.write_list_item(&items[k]);
                self.write_raw("\n");
                proof {
                    reveal_strlit("\n");
                }
                assert(iv[k as int] == item_view(items@[k as int]));
                assert(self.output@ =~= item_out(o + ".IP \"\\(bu\" 4\n"@, iv[k as int]) + nl());
                k = k + 1;
            }
            if !(next < blocks.len() && is_code(&blocks[next])) {
                self.write_raw(".IP \"\" 0\n");
            }
            0
        }
    }

    fn write_list_item(&mut self, item: &ListItem)
        ensures
            final(self).output@ == item_out(old(self).output@, item_view(*item)),
        decreases item,
    {
        if item.blocks.len() == 0 {
            return;
        }
        let ghost it = item_view(*item);
        assert(it[0] == block_view(item.blocks@[0]));
        match &item.blocks[0] {
            Block::Paragraph(inlines) => {
                self.write_inlines(inlines, true);
                if item.blocks.len() > 1 {
                    self.write_raw("\n");
                    proof {
                        reveal_strlit("\n");
                    }
                }
                let ghost o = self.output@;
                assert(o == old(self).output@ + inlines_out(it[0]->Paragraph_0, true) + (if it.len()
                    > 1 {
                    nl()
                } else {
                    Seq::empty()
                }));
                self.write_blocks(&item.blocks, 1, true);
            },
            _ => {
                self.write_blocks(&item.blocks, 0, true);
            },
        }
    }

    fn finish(self) -> (r: String)
        ensures
            r@ == finish_out(self.output@),
    {
        string_of(&finish_chars(&self.output))
    }

    fn write_heading(&mut self, level: u8, content: &Vec<Inline>)
        ensures
            final(self).output@ == old(self).output@ + heading_out(level, inlines_view(content@)),
    {
        let text = inline_text(content);
        if level == 1 {
            self.write_raw(".SH \"NAME\"\n");
            let (name, desc) = split_name_chars(&text);
            let name = sanitize_chars(&name);
            let desc = sanitize_chars(&desc);
            self.write_raw("\\fB");
            self.write_chars(&name);
            self.write_raw("\\fR");
            if desc.len() > 0 {
                self.write_raw(" \\- ");
                self.write_chars(&desc);
            }
            self.write_raw("\n");
            proof {
                reveal_strlit("\\fB");
                reveal_strlit("\\fR");
                reveal_strlit("\n");
            }
            assert(self.output@ =~= old(self).output@ + heading_out(level, inlines_view(content@)));
        } else if level == 2 {
            self.write_raw(".SH \"");
            self.write_chars(&sanitize_chars(&text));
            self.write_raw("\"\n");
            assert(self.output@ =~= old(self).output@ + heading_out(level, inlines_view(content@)));
        } else {
            self.write_raw(".SS \"");
            self.write_chars(&heading_sanitize_chars(&text));
            self.write_raw("\"\n");
            assert(self.output@ =~= old(self).output@ + heading_out(level, inlines_view(content@)));
        }
    }
}

fn is_code(b: &Block) -> (r: bool)
    ensures
        r == (block_view(*b) is CodeBlock),
{
    match b {
        Block::CodeBlock { .. } => true,
        _ => false,
    }
}

fn is_special_list(items: &Vec<ListItem>) -> (r: bool)
    ensures
        r == is_special(items_view(items@)),
{
    if items.len() != 1 {
        return false;
    }
    let item = &items[0];
    if item.blocks.len() != 1 {
        return false;
    }
    assert(items_view(items@)[0] == blocks_view(item.blocks@));
    match &item.blocks[0] {
        Block::Paragraph(inlines) => {
            let text = trim_chars(&inline_text(inlines));
            text.len() > 0 && text[text.len() - 1] == ':'
        },
        _ => false,
    }
}

fn strip_cr_chars(l: Vec<char>) -> (r: Vec<char>)
    ensures
        r@ == strip_cr(l@),
{
    let n = l.len();
    if n > 0 && l[n - 1] == '\r' {
        slice_chars(&l, 0, n - 1)
    } else {
        l
    }
}

fn guard_line_chars(l: Vec<char>) -> (r: Vec<char>)
    ensures
        r@ == guard_line(l@),
{
    if l.len() >= 2 && l[0] == '\\' && l[1] == '.' {
        let mut r: Vec<char> = Vec::new();
        r.push('\\');
        r.push('&');
        extend(&mut r, &l);
        assert(l@.subrange(0, 2) =~= seq!['\\', '.']);
        assert(r@ =~= seq!['\\', '&'] + l@);
        r
    } else {
        if l.len() >= 2 {
            assert(l@.subrange(0, 2)[0] == l@[0]);
            assert(l@.subrange(0, 2)[1] == l@[1]);
        }
        l
    }
}

spec fn guarded(ps: Seq<Seq<char>>) -> Seq<Seq<char>> {
    ps.map_values(|l: Seq<char>| guard_line(strip_cr(l)))
}

/// The final pass: lines that start with an escaped dot get a zero-width break.
fn finish_chars(s: &Vec<char>) -> (r: Vec<char>)
    ensures
        r@ == finish_out(s@),
{
    let mut result: Vec<char> = Vec::new();
    let mut buf: Vec<char> = Vec::new();
    let mut count: usize = 0;
    let mut i: usize = 0;
    assert(s@.take(0) =~= Seq::empty());
    assert(guarded(split_on(Seq::empty(), '\n').drop_last()) =~= Seq::empty());
    while i < s.len()
        invariant
            i <= s.len(),
            count <= i,
            split_on(s@.take(i as int), '\n').len() == count + 1,
            buf@ == split_on(s@.take(i as int), '\n').last(),
            result@ == join(guarded(split_on(s@.take(i as int), '\n').drop_last()), nl()),
        decreases s.len() - i,
    {
        let ghost parts = split_on(s@.take(i as int), '\n');
        let ghost g = guarded(parts.drop_last());
        assert(s@.take(i + 1).drop_last() =~= s@.take(i as int));
        let c = s[i];
        if c == '\n' {
            let mut line: Vec<char> = Vec::new();
            std::mem::swap(&mut line, &mut buf);
            let line = guard_line_chars(strip_cr_chars(line));
            if count > 0 {
                result.push('\n');
            }
            extend(&mut result, &line);
            let ghost nparts = split_on(s@.take(i + 1), '\n');
            assert(nparts == parts.push(Seq::empty()));
            assert(nparts.drop_last() =~= parts);
            assert(parts =~= parts.drop_last().push(parts.last()));
            assert(guarded(nparts.drop_last()) =~= g.push(line@));
            assert(g.push(line@).drop_last() =~= g);
            assert(result@ =~= join(g.push(line@), nl()));
            count = count + 1;
        } else {
            buf.push(c);
            let ghost nparts = split_on(s@.take(i + 1), '\n');
            assert(nparts.drop_last() =~= parts.drop_last());
        }
        i = i + 1;
    }
    assert(s@.take(i as int) =~= s@);
    let ghost parts = split_on(s@, '\n');
    let ghost g = guarded(parts.drop_last());
    let ghost ls = lines(s@).map_values(|l: Seq<char>| guard_line(l));
    if buf.len() > 0 {
        let last = guard_line_chars(buf);
        if count > 0 {
            result.push('\n');
        }
        extend(&mut result, &last);
        assert(ls =~= g.push(last@));
        assert(g.push(last@).drop_last() =~= g);
        assert(result@ =~= join(g.push(last@), nl()));
    } else {
        assert(ls =~= g);
    }
    result
}

/// The text before the first `(`, or all of it.
fn before_paren_chars(s: &Vec<char>) -> (r: Vec<char>)
    ensures
        r@ == before_paren(s@),
{
    let mut pat: Vec<char> = Vec::new();
    pat.push('(');
    assert(pat@ =~= seq!['(']);
    match find_exec(s, &pat) {
        Some(i) => slice_chars(s, 0, i),
        None => slice_chars(s, 0, s.len()),
    }
}

fn split_at_sep_chars(text: &Vec<char>, sep: &Vec<char>, i: usize) -> (r: (Vec<char>, Vec<char>))
    requires
        i + sep.len() <= text.len(),
    ensures
        (r.0@, r.1@) == split_at_sep(text@, sep@, i as int),
{
    let left = trim_chars(&slice_chars(text, 0, i));
    let name = trim_chars(&before_paren_chars(&left));
    let right = trim_chars(&slice_chars(text, i + sep.len(), text.len()));
    assert(text@.take(i as int) =~= text@.subrange(0, i as int));
    assert(text@.skip(i + sep.len()) =~= text@.subrange(i + sep.len(), text.len() as int));
    (name, right)
}

fn split_name_chars(text: &Vec<char>) -> (r: (Vec<char>, Vec<char>))
    ensures
        (r.0@, r.1@) == split_name(text@),
{
    let long = chars_of(" -- ");
    let short = chars_of(" - ");
    let dash = chars_of(" \u{2014} ");
    proof {
        reveal_strlit(" -- ");
        reveal_strlit(" - ");
        reveal_strlit(" \u{2014} ");
    }
    assert(long@ =~= sep_long());
    assert(short@ =~= sep_short());
    assert(dash@ =~= sep_dash());
    if let Some(i) = find_exec(text, &long) {
        return split_at_sep_chars(text, &long, i);
    }
    if let Some(i) = find_exec(text, &short) {
        return split_at_sep_chars(text, &short, i);
    }
    if let Some(i) = find_exec(text, &dash) {
        return split_at_sep_chars(text, &dash, i);
    }
    (trim_chars(&before_paren_chars(text)), Vec::new())
}

/// A NAME line's text as program name and description.
pub fn split_name_description(text: &str) -> (r: (String, String))
    ensures
        (r.0@, r.1@) == split_name(text@),
{
    let (name, desc) = split_name_chars(&chars_of(text));
    (string_of(&name), string_of(&desc))
}

/// Renders a document as a manual page.
pub fn render_roff(document: &Document, options: &ManpageOptions) -> (r: Result<String, MandateError>)
    ensures
        r matches Ok(s) && s@ == roff(document@, *options),
{
    let mut writer = RoffWriter::new();
    writer.write_header(options);
    writer.write_blocks(&document.blocks, 0, false);
    Ok(writer.finish())
}

proof fn lemma_lines_free(s: Seq<char>)
    ensures
        forall|k: int| 0 <= k < lines(s).len() ==> free_of(#[trigger] lines(s)[k], '\n'),
{
    let parts = split_on(s, '\n');
    lemma_split_parts_free(s, '\n');
    lemma_split_on_nonempty(s, '\n');
    assert forall|k: int| 0 <= k < lines(s).len() implies free_of(#[trigger] lines(s)[k], '\n') by {
        if k < parts.len() - 1 {
            assert(free_of(parts[k], '\n'));
            assert(lines(s)[k] == strip_cr(parts[k]));
        } else {
            assert(free_of(parts[parts.len() - 1], '\n'));
        }
    }
}

/// No line of a manual page starts with an escaped dot: the final pass puts a
/// zero-width break in front of every line that would.
pub proof fn lemma_no_line_starts_with_escaped_dot(doc: Seq<BlockModel>, o: ManpageOptions)
    ensures
        forall|k: int|
            0 <= k < split_on(roff(doc, o), '\n').len() ==> !starts_with(
                #[trigger] split_on(roff(doc, o), '\n')[k],
                seq!['\\', '.'],
            ),
{
    let s = blocks_out(header_out(o), doc, 0, false, false);
    let ls = lines(s);
    let gs = ls.map_values(|l: Seq<char>| guard_line(l));
    lemma_lines_free(s);
    assert forall|k: int| 0 <= k < gs.len() implies free_of(#[trigger] gs[k], '\n')
        && !starts_with(gs[k], seq!['\\', '.']) by {
        let l = ls[k];
        assert(free_of(l, '\n'));
        if starts_with(l, seq!['\\', '.']) {
            assert(gs[k] == seq!['\\', '&'] + l);
            assert(gs[k][1] == '&');
            assert(seq!['\\', '.'][1] == '.');
            assert(gs[k].subrange(0, 2)[1] != seq!['\\', '.'][1]);
        }
    }
    if gs.len() == 0 {
        assert(roff(doc, o) == Seq::<char>::empty());
        assert(split_on(Seq::<char>::empty(), '\n') =~= seq![Seq::<char>::empty()]);
    } else {
        lemma_split_join(gs, '\n');
    }
}

} // verus!
