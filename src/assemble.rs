//! The event-to-document assembler: a stack of open containers that folds a
//! flat event stream into a [`Document`].
use vstd::prelude::*;
use crate::document::{
    Block, BlockModel, Inline, InlineModel, LineBreak, ListItem, ListKind, Document, blocks_view,
    block_view, flatten, inline_view, inlines_view, items_view, item_view, opt_view, inline_text,
    lemma_inline_children, lemma_list_items,
};
use crate::error::MandateError;
use crate::events::{MdEvent, MdTag, TagKind, commonmark_events, markdown_events};
use crate::text::string_of;

verus! {

/// A block container's content so far: its finished blocks, and the loose
/// inline content that has not yet become a paragraph.
pub struct ContainerModel {
    pub blocks: Seq<BlockModel>,
    pub pending: Seq<InlineModel>,
}

/// An open container on the assembler's stack.
pub enum FrameModel {
    Document(ContainerModel),
    BlockContainer(ContainerModel),
    List { kind: ListKind, items: Seq<Seq<BlockModel>> },
    ListItem(ContainerModel),
    Paragraph(Seq<InlineModel>),
    Heading(u8, Seq<InlineModel>),
    Emphasis(Seq<InlineModel>),
    Strong(Seq<InlineModel>),
    Link { url: Seq<char>, title: Option<Seq<char>>, inlines: Seq<InlineModel> },
    Image(Seq<InlineModel>),
    CodeBlock(Seq<char>),
    HtmlBlock(Seq<char>),
}

pub open spec fn empty_container() -> ContainerModel {
    ContainerModel { blocks: Seq::empty(), pending: Seq::empty() }
}

/// Pending inline content becomes a paragraph.
pub open spec fn flush(c: ContainerModel) -> ContainerModel {
    if c.pending.len() > 0 {
        ContainerModel { blocks: c.blocks.push(BlockModel::Paragraph(c.pending)), pending: Seq::empty() }
    } else {
        c
    }
}

/// The blocks of a closed container.
pub open spec fn finish(c: ContainerModel) -> Seq<BlockModel> {
    flush(c).blocks
}

pub open spec fn is_container(f: FrameModel) -> bool {
    f is Document || f is BlockContainer || f is ListItem
}

pub open spec fn container_of(f: FrameModel) -> ContainerModel {
    match f {
        FrameModel::Document(c) => c,
        FrameModel::BlockContainer(c) => c,
        FrameModel::ListItem(c) => c,
        _ => empty_container(),
    }
}

/// The frame `f` with its container content replaced by `c`.
pub open spec fn with_container(f: FrameModel, c: ContainerModel) -> FrameModel {
    match f {
        FrameModel::Document(_) => FrameModel::Document(c),
        FrameModel::BlockContainer(_) => FrameModel::BlockContainer(c),
        FrameModel::ListItem(_) => FrameModel::ListItem(c),
        _ => f,
    }
}

pub open spec fn set_top(st: Seq<FrameModel>, f: FrameModel) -> Seq<FrameModel> {
    st.update(st.len() - 1, f)
}

/// Before a block opens, the container on top turns its pending inlines into a paragraph.
pub open spec fn flush_top(st: Seq<FrameModel>) -> Seq<FrameModel> {
    if st.len() > 0 && is_container(st.last()) {
        set_top(st, with_container(st.last(), flush(container_of(st.last()))))
    } else {
        st
    }
}

/// Adds inline content to the frame on top; `None` where that frame cannot hold it.
pub open spec fn add_inline(st: Seq<FrameModel>, i: InlineModel) -> Option<Seq<FrameModel>> {
    if st.len() == 0 {
        None
    } else {
        match st.last() {
            FrameModel::Paragraph(v) => Some(set_top(st, FrameModel::Paragraph(v.push(i)))),
            FrameModel::Heading(l, v) => Some(set_top(st, FrameModel::Heading(l, v.push(i)))),
            FrameModel::Emphasis(v) => Some(set_top(st, FrameModel::Emphasis(v.push(i)))),
            FrameModel::Strong(v) => Some(set_top(st, FrameModel::Strong(v.push(i)))),
            FrameModel::Link { url, title, inlines } => Some(
                set_top(st, FrameModel::Link { url, title, inlines: inlines.push(i) }),
            ),
            FrameModel::Image(v) => Some(set_top(st, FrameModel::Image(v.push(i)))),
            FrameModel::Document(c) => Some(
                set_top(st, FrameModel::Document(ContainerModel { pending: c.pending.push(i), ..c })),
            ),
            FrameModel::BlockContainer(c) => Some(
                set_top(
                    st,
                    FrameModel::BlockContainer(ContainerModel { pending: c.pending.push(i), ..c }),
                ),
            ),
            FrameModel::ListItem(c) => Some(
                set_top(st, FrameModel::ListItem(ContainerModel { pending: c.pending.push(i), ..c })),
            ),
            _ => None,
        }
    }
}

/// Adds a finished block to the container on top; `None` where the top is no container.
pub open spec fn add_block(st: Seq<FrameModel>, b: BlockModel) -> Option<Seq<FrameModel>> {
    if st.len() > 0 && is_container(st.last()) {
        let c = flush(container_of(st.last()));
        Some(set_top(st, with_container(st.last(), ContainerModel { blocks: c.blocks.push(b), ..c })))
    } else {
        None
    }
}

/// Adds finished blocks one after another.
pub open spec fn add_blocks(st: Seq<FrameModel>, bs: Seq<BlockModel>) -> Option<Seq<FrameModel>>
    decreases bs.len(),
{
    if bs.len() == 0 {
        Some(st)
    } else {
        match add_blocks(st, bs.drop_last()) {
            Some(s) => add_block(s, bs.last()),
            None => None,
        }
    }
}

pub open spec fn list_kind(start: Option<u64>) -> ListKind {
    match start {
        Some(n) => ListKind::Ordered { start: n },
        None => ListKind::Unordered,
    }
}

pub open spec fn link_title(title: Seq<char>) -> Option<Seq<char>> {
    if title.len() == 0 {
        None
    } else {
        Some(title)
    }
}

/// A start event; `None` for the constructs that are not supported and for a
/// heading level outside 1 to 6.
pub open spec fn start_tag(st: Seq<FrameModel>, t: MdTag) -> Option<Seq<FrameModel>> {
    match t {
        MdTag::Paragraph => Some(flush_top(st).push(FrameModel::Paragraph(Seq::empty()))),
        MdTag::Heading(l) => if 1 <= l <= 6 {
            Some(flush_top(st).push(FrameModel::Heading(l, Seq::empty())))
        } else {
            None
        },
        MdTag::List(start) => Some(
            flush_top(st).push(FrameModel::List { kind: list_kind(start), items: Seq::empty() }),
        ),
        MdTag::Item => Some(st.push(FrameModel::ListItem(empty_container()))),
        MdTag::CodeBlock => Some(flush_top(st).push(FrameModel::CodeBlock(Seq::empty()))),
        MdTag::BlockQuote => Some(flush_top(st).push(FrameModel::BlockContainer(empty_container()))),
        MdTag::HtmlBlock => Some(flush_top(st).push(FrameModel::HtmlBlock(Seq::empty()))),
        MdTag::Emphasis => Some(st.push(FrameModel::Emphasis(Seq::empty()))),
        MdTag::Strong => Some(st.push(FrameModel::Strong(Seq::empty()))),
        MdTag::Link { url, title } => Some(
            st.push(FrameModel::Link { url: url@, title: link_title(title@), inlines: Seq::empty() }),
        ),
        MdTag::Image { .. } => Some(st.push(FrameModel::Image(Seq::empty()))),
        _ => None,
    }
}

/// An end event: the top frame must be of the kind it closes, and is folded
/// into the frame below it.
pub open spec fn end_tag(st: Seq<FrameModel>, k: TagKind) -> Option<Seq<FrameModel>> {
    if st.len() == 0 {
        None
    } else {
        let top = st.last();
        let rest = st.drop_last();
        match (k, top) {
            (TagKind::Paragraph, FrameModel::Paragraph(v)) => add_block(rest, BlockModel::Paragraph(v)),
            (TagKind::Heading, FrameModel::Heading(l, v)) => add_block(
                rest,
                BlockModel::Heading { level: l, content: v },
            ),
            (TagKind::List, FrameModel::List { kind, items }) => add_block(
                rest,
                BlockModel::List { kind, items },
            ),
            (TagKind::Item, FrameModel::ListItem(c)) => if rest.len() > 0 && rest.last() is List {
                Some(
                    set_top(
                        rest,
                        FrameModel::List {
                            kind: rest.last()->kind,
                            items: rest.last()->items.push(finish(c)),
                        },
                    ),
                )
            } else {
                None
            },
            (TagKind::Emphasis, FrameModel::Emphasis(v)) => add_inline(rest, InlineModel::Emphasis(v)),
            (TagKind::Strong, FrameModel::Strong(v)) => add_inline(rest, InlineModel::Strong(v)),
            (TagKind::Link, FrameModel::Link { url, title, inlines }) => add_inline(
                rest,
                InlineModel::Link { url, title, content: inlines },
            ),
            (TagKind::Image, FrameModel::Image(v)) => add_inline(rest, InlineModel::Text(flatten(v))),
            (TagKind::CodeBlock, FrameModel::CodeBlock(t)) => add_block(
                rest,
                BlockModel::CodeBlock { text: t },
            ),
            (TagKind::HtmlBlock, FrameModel::HtmlBlock(t)) => add_block(
                rest,
                BlockModel::Paragraph(seq![InlineModel::Text(t)]),
            ),
            (TagKind::BlockQuote, FrameModel::BlockContainer(c)) => add_blocks(rest, finish(c)),
            _ => None,
        }
    }
}

/// Literal text: raw inside a code or HTML block, inline content elsewhere.
pub open spec fn add_text(st: Seq<FrameModel>, t: Seq<char>) -> Option<Seq<FrameModel>> {
    if st.len() > 0 && st.last() is CodeBlock {
        Some(set_top(st, FrameModel::CodeBlock(st.last()->CodeBlock_0 + t)))
    } else if st.len() > 0 && st.last() is HtmlBlock {
        Some(set_top(st, FrameModel::HtmlBlock(st.last()->HtmlBlock_0 + t)))
    } else {
        add_inline(st, InlineModel::Text(t))
    }
}

/// HTML: raw inside an HTML block, literal text elsewhere.
pub open spec fn add_html(st: Seq<FrameModel>, t: Seq<char>) -> Option<Seq<FrameModel>> {
    if st.len() > 0 && st.last() is HtmlBlock {
        Some(set_top(st, FrameModel::HtmlBlock(st.last()->HtmlBlock_0 + t)))
    } else {
        add_inline(st, InlineModel::Text(t))
    }
}

/// One event applied to the stack; `None` is a structural error.
pub open spec fn step(st: Seq<FrameModel>, e: MdEvent) -> Option<Seq<FrameModel>> {
    match e {
        MdEvent::Start(t) => start_tag(st, t),
        MdEvent::End(k) => end_tag(st, k),
        MdEvent::Text(t) => add_text(st, t@),
        MdEvent::Code(t) => add_inline(st, InlineModel::Code(t@)),
        MdEvent::Html(t) => add_html(st, t@),
        MdEvent::InlineHtml(t) => add_html(st, t@),
        MdEvent::FootnoteReference(t) => add_inline(st, InlineModel::Text(t@)),
        MdEvent::SoftBreak => add_inline(st, InlineModel::LineBreak(LineBreak::Soft)),
        MdEvent::HardBreak => add_inline(st, InlineModel::LineBreak(LineBreak::Hard)),
        MdEvent::Rule => Some(st),
        MdEvent::TaskListMarker(_) => Some(st),
        MdEvent::InlineMath(_) => Some(st),
        MdEvent::DisplayMath(_) => Some(st),
    }
}

pub open spec fn initial_stack() -> Seq<FrameModel> {
    seq![FrameModel::Document(empty_container())]
}

/// The stack after all of `evs`, from the stack `st`; `None` once an event fails.
pub open spec fn run_from(st: Seq<FrameModel>, evs: Seq<MdEvent>) -> Option<Seq<FrameModel>>
    decreases evs.len(),
{
    if evs.len() == 0 {
        Some(st)
    } else {
        match run_from(st, evs.drop_last()) {
            Some(s) => step(s, evs.last()),
            None => None,
        }
    }
}

/// The stack after all of `evs`, from the stack holding only the document root.
pub open spec fn run(evs: Seq<MdEvent>) -> Option<Seq<FrameModel>> {
    run_from(initial_stack(), evs)
}

/// The document that an event stream describes: its blocks, or `None` where
/// the stream is malformed, unsupported or unbalanced.
pub open spec fn assemble(evs: Seq<MdEvent>) -> Option<Seq<BlockModel>> {
    match run(evs) {
        Some(st) => if st.len() == 1 && st[0] is Document {
            Some(finish(st[0]->Document_0))
        } else {
            None
        },
        None => None,
    }
}

struct BlockContainerFrame {
    blocks: Vec<Block>,
    pending_inlines: Vec<Inline>,
}

enum Frame {
    Document(BlockContainerFrame),
    BlockContainer(BlockContainerFrame),
    List { kind: ListKind, items: Vec<ListItem> },
    ListItem(BlockContainerFrame),
    Paragraph { inlines: Vec<Inline> },
    Heading { level: u8, inlines: Vec<Inline> },
    Emphasis { inlines: Vec<Inline> },
    Strong { inlines: Vec<Inline> },
    Link { url: String, title: Option<String>, inlines: Vec<Inline> },
    Image { inlines: Vec<Inline> },
    CodeBlock { text: String },
    HtmlBlock { text: String },
}

spec fn container_view(c: BlockContainerFrame) -> ContainerModel {
    ContainerModel { blocks: blocks_view(c.blocks@), pending: inlines_view(c.pending_inlines@) }
}

spec fn frame_view(f: Frame) -> FrameModel {
    match f {
        Frame::Document(c) => FrameModel::Document(container_view(c)),
        Frame::BlockContainer(c) => FrameModel::BlockContainer(container_view(c)),
        Frame::List { kind, items } => FrameModel::List { kind, items: items_view(items@) },
        Frame::ListItem(c) => FrameModel::ListItem(container_view(c)),
        Frame::Paragraph { inlines } => FrameModel::Paragraph(inlines_view(inlines@)),
        Frame::Heading { level, inlines } => FrameModel::Heading(level, inlines_view(inlines@)),
        Frame::Emphasis { inlines } => FrameModel::Emphasis(inlines_view(inlines@)),
        Frame::Strong { inlines } => FrameModel::Strong(inlines_view(inlines@)),
        Frame::Link { url, title, inlines } => FrameModel::Link {
            url: url@,
            title: opt_view(title),
            inlines: inlines_view(inlines@),
        },
        Frame::Image { inlines } => FrameModel::Image(inlines_view(inlines@)),
        Frame::CodeBlock { text } => FrameModel::CodeBlock(text@),
        Frame::HtmlBlock { text } => FrameModel::HtmlBlock(text@),
    }
}

spec fn frame_inlines(f: Frame) -> Seq<Inline> {
    match f {
        Frame::Paragraph { inlines } => inlines@,
        Frame::Heading { inlines, .. } => inlines@,
        Frame::Emphasis { inlines } => inlines@,
        Frame::Strong { inlines } => inlines@,
        Frame::Link { inlines, .. } => inlines@,
        Frame::Image { inlines } => inlines@,
        _ => Seq::empty(),
    }
}

spec fn stack_view(s: Seq<Frame>) -> Seq<FrameModel> {
    s.map_values(|f: Frame| frame_view(f))
}

proof fn lemma_push_inline_view(v: Seq<Inline>, i: Inline)
    ensures
        inlines_view(v.push(i)) == inlines_view(v).push(inline_view(i)),
{
    assert(inlines_view(v.push(i)) =~= inlines_view(v).push(inline_view(i)));
}

proof fn lemma_push_block_view(v: Seq<Block>, b: Block)
    ensures
        blocks_view(v.push(b)) == blocks_view(v).push(block_view(b)),
{
    assert(blocks_view(v.push(b)) =~= blocks_view(v).push(block_view(b)));
}

proof fn lemma_stack_push(s: Seq<Frame>, f: Frame)
    ensures
        stack_view(s.push(f)) == stack_view(s).push(frame_view(f)),
{
    assert(stack_view(s.push(f)) =~= stack_view(s).push(frame_view(f)));
}

proof fn lemma_stack_pop(s: Seq<Frame>)
    requires
        s.len() > 0,
    ensures
        stack_view(s.drop_last()) == stack_view(s).drop_last(),
        stack_view(s).last() == frame_view(s.last()),
{
    assert(stack_view(s.drop_last()) =~= stack_view(s).drop_last());
}

impl BlockContainerFrame {
    fn new() -> (r: Self)
        ensures
            container_view(r) == empty_container(),
    {
        let r = BlockContainerFrame { blocks: Vec::new(), pending_inlines: Vec::new() };
        assert(container_view(r).blocks =~= Seq::empty());
        assert(container_view(r).pending =~= Seq::empty());
        r
    }

    fn push_inline(&mut self, inline: Inline)
        ensures
            container_view(*final(self)) == (ContainerModel {
                pending: container_view(*old(self)).pending.push(inline_view(inline)),
                ..container_view(*old(self))
            }),
    {
        proof {
            lemma_push_inline_view(self.pending_inlines@, inline);
        }
        self.pending_inlines.push(inline);
    }

    fn flush_pending(&mut self)
        ensures
            container_view(*final(self)) == flush(container_view(*old(self))),
    {
        if self.pending_inlines.len() > 0 {
            let mut inlines: Vec<Inline> = Vec::new();
            std::mem::swap(&mut inlines, &mut self.pending_inlines);
            let para = Block::Paragraph(inlines);
            proof {
                lemma_push_block_view(self.blocks@, para);
            }
            self.blocks.push(para);
            assert(inlines_view(self.pending_inlines@) =~= Seq::empty());
        }
    }

    fn push_block(&mut self, block: Block)
        ensures
            container_view(*final(self)) == (ContainerModel {
                blocks: flush(container_view(*old(self))).blocks.push(block_view(block)),
                ..flush(container_view(*old(self)))
            }),
    {
        self.flush_pending();
        proof {
            lemma_push_block_view(self.blocks@, block);
        }
        self.blocks.push(block);
    }

    fn finish(self) -> (r: Vec<Block>)
        ensures
            blocks_view(r@) == finish(container_view(self)),
    {
        let mut c = self;
        c.flush_pending();
        c.blocks
    }
}

fn md_error(msg: &str) -> (r: MandateError)
    ensures
        r is Markdown,
{
    MandateError::Markdown(msg.to_owned())
}

/// Adds inline content to the frame on top of the stack.
fn push_inline(stack: &mut Vec<Frame>, inline: Inline) -> (r: Result<(), MandateError>)
    ensures
        match add_inline(stack_view(old(stack)@), inline_view(inline)) {
            Some(s) => r is Ok && stack_view(final(stack)@) == s,
            None => r matches Err(e) && e is Markdown && final(stack)@ == old(stack)@,
        },
{
    let ghost old_st = stack@;
    let top = match stack.pop() {
        Some(f) => f,
        None => {
            return Err(md_error("inline content found without container"));
        },
    };
    proof {
        lemma_stack_pop(old_st);
        lemma_push_inline_view(frame_inlines(top), inline);
    }
    let ghost v = inline_view(inline);
    let f = match top {
        Frame::Paragraph { mut inlines } => {
            inlines.push(inline);
            Frame::Paragraph { inlines }
        },
        Frame::Heading { level, mut inlines } => {
            inlines.push(inline);
            Frame::Heading { level, inlines }
        },
        Frame::Emphasis { mut inlines } => {
            inlines.push(inline);
            Frame::Emphasis { inlines }
        },
        Frame::Strong { mut inlines } => {
            inlines.push(inline);
            Frame::Strong { inlines }
        },
        Frame::Link { url, title, mut inlines } => {
            inlines.push(inline);
            Frame::Link { url, title, inlines }
        },
        Frame::Image { mut inlines } => {
            inlines.push(inline);
            Frame::Image { inlines }
        },
        Frame::Document(mut c) => {
            c.push_inline(inline);
            Frame::Document(c)
        },
        Frame::BlockContainer(mut c) => {
            c.push_inline(inline);
            Frame::BlockContainer(c)
        },
        Frame::ListItem(mut c) => {
            c.push_inline(inline);
            Frame::ListItem(c)
        },
        other => {
            let msg = match &other {
                Frame::List { .. } => "inline content found directly inside list",
                _ => "inline content found inside code/html block",
            };
            stack.push(other);
            assert(stack@ =~= old_st);
            return Err(md_error(msg));
        },
    };
    proof {
        lemma_stack_push(stack@, f);
    }
    stack.push(f);
    assert(stack_view(stack@) =~= set_top(stack_view(old_st), frame_view(f)));
    Ok(())
}

/// Adds a finished block to the container on top of the stack.
fn push_block(stack: &mut Vec<Frame>, block: Block) -> (r: Result<(), MandateError>)
    ensures
        match add_block(stack_view(old(stack)@), block_view(block)) {
            Some(s) => r is Ok && stack_view(final(stack)@) == s,
            None => r matches Err(e) && e is Markdown && final(stack)@ == old(stack)@,
        },
{
    let ghost old_st = stack@;
    let top = match stack.pop() {
        Some(f) => f,
        None => {
            return Err(md_error("block found without container"));
        },
    };
    proof {
        lemma_stack_pop(old_st);
    }
    let f = match top {
        Frame::Document(mut c) => {
            c.push_block(block);
            Frame::Document(c)
        },
        Frame::ListItem(mut c) => {
            c.push_block(block);
            Frame::ListItem(c)
        },
        Frame::BlockContainer(mut c) => {
            c.push_block(block);
            Frame::BlockContainer(c)
        },
        other => {
            let msg = match &other {
                Frame::List { .. } => "block found directly inside list",
                _ => "block found without container",
            };
            stack.push(other);
            assert(stack@ =~= old_st);
            return Err(md_error(msg));
        },
    };
    proof {
        lemma_stack_push(stack@, f);
    }
    stack.push(f);
    assert(stack_view(stack@) =~= set_top(stack_view(old_st), frame_view(f)));
    Ok(())
}

/// Before a block opens, the container on top turns pending inlines into a paragraph.
fn flush_pending_block_container(stack: &mut Vec<Frame>)
    ensures
        stack_view(final(stack)@) == flush_top(stack_view(old(stack)@)),
{
    let ghost old_st = stack@;
    if stack.len() == 0 {
        return;
    }
    let top = stack.pop().unwrap();
    proof {
        lemma_stack_pop(old_st);
    }
    let f = match top {
        Frame::Document(mut c) => {
            c.flush_pending();
            Frame::Document(c)
        },
        Frame::ListItem(mut c) => {
            c.flush_pending();
            Frame::ListItem(c)
        },
        Frame::BlockContainer(mut c) => {
            c.flush_pending();
            Frame::BlockContainer(c)
        },
        other => other,
    };
    proof {
        lemma_stack_push(stack@, f);
    }
    stack.push(f);
    assert(stack_view(stack@) =~= flush_top(stack_view(old_st)));
}

fn handle_start(tag: &MdTag, stack: &mut Vec<Frame>) -> (r: Result<(), MandateError>)
    ensures
        match start_tag(stack_view(old(stack)@), *tag) {
            Some(s) => r is Ok && stack_view(final(stack)@) == s,
            None => r matches Err(e) && e is Markdown && final(stack)@ == old(stack)@,
        },
{
    let f = match tag {
        MdTag::Paragraph => {
            flush_pending_block_container(stack);
            Frame::Paragraph { inlines: Vec::new() }
        },
        MdTag::Heading(level) => {
            if *level < 1 || *level > 6 {
                return Err(md_error("heading level out of range"));
            }
            flush_pending_block_container(stack);
            Frame::Heading { level: *level, inlines: Vec::new() }
        },
        MdTag::List(start) => {
            flush_pending_block_container(stack);
            let kind = match start {
                Some(n) => ListKind::Ordered { start: *n },
                None => ListKind::Unordered,
            };
            Frame::List { kind, items: Vec::new() }
        },
        MdTag::Item => Frame::ListItem(BlockContainerFrame::new()),
        MdTag::CodeBlock => {
            flush_pending_block_container(stack);
            Frame::CodeBlock { text: String::new() }
        },
        MdTag::BlockQuote => {
            flush_pending_block_container(stack);
            Frame::BlockContainer(BlockContainerFrame::new())
        },
        MdTag::HtmlBlock => {
            flush_pending_block_container(stack);
            Frame::HtmlBlock { text: String::new() }
        },
        MdTag::Emphasis => Frame::Emphasis { inlines: Vec::new() },
        MdTag::Strong => Frame::Strong { inlines: Vec::new() },
        MdTag::Link { url, title } => {
            let title = if title.as_str().is_empty() {
                None
            } else {
                Some(title.clone())
            };
            Frame::Link { url: url.clone(), title, inlines: Vec::new() }
        },
        MdTag::Image { .. } => Frame::Image { inlines: Vec::new() },
        MdTag::Table | MdTag::TableHead | MdTag::TableRow | MdTag::TableCell => {
            return Err(md_error("tables are not supported"));
        },
        MdTag::FootnoteDefinition | MdTag::Strikethrough | MdTag::MetadataBlock => {
            return Err(md_error("unsupported markdown construct encountered"));
        },
    };
    proof {
        lemma_stack_push(stack@, f);
    }
    assert(inlines_view(Seq::<Inline>::empty()) =~= Seq::empty());
    assert(items_view(Seq::<ListItem>::empty()) =~= Seq::empty());
    stack.push(f);
    Ok(())
}

/// Closes a block container: its blocks go, in order, to the container below.
fn push_blocks(stack: &mut Vec<Frame>, blocks: Vec<Block>) -> (r: Result<(), MandateError>)
    ensures
        match add_blocks(stack_view(old(stack)@), blocks_view(blocks@)) {
            Some(s) => r is Ok && stack_view(final(stack)@) == s,
            None => r matches Err(e) && e is Markdown,
        },
{
    let ghost st0 = stack_view(stack@);
    let ghost bv = blocks_view(blocks@);
    let ghost all = blocks@;
    assert(bv.take(0) =~= Seq::empty());
    for block in it: blocks
        invariant
            it.seq() == all,
            all == blocks@,
            st0 == stack_view(old(stack)@),
            bv == blocks_view(all),
            add_blocks(st0, bv.take(it.index() as int)) == Some(stack_view(stack@)),
    {
        let ghost i = it.index() as int;
        assert(bv.take(i + 1).drop_last() =~= bv.take(i));
        assert(bv.take(i + 1).last() == block_view(block));
        let ghost before = stack_view(stack@);
        let res = push_block(stack, block);
        if res.is_err() {
            assert(add_block(before, bv[i]) is None);
            assert(add_blocks(st0, bv.take(i + 1)) is None);
            proof {
                lemma_add_blocks_stuck(st0, bv, i + 1);
            }
            return res;
        }
    }
    assert(bv.take(bv.len() as int) =~= bv);
    Ok(())
}

proof fn lemma_add_blocks_stuck(st: Seq<FrameModel>, bs: Seq<BlockModel>, i: int)
    requires
        0 <= i <= bs.len(),
        add_blocks(st, bs.take(i)) is None,
    ensures
        add_blocks(st, bs) is None,
    decreases bs.len() - i,
{
    if i < bs.len() {
        assert(bs.take(i + 1).drop_last() =~= bs.take(i));
        lemma_add_blocks_stuck(st, bs, i + 1);
    } else {
        assert(bs.take(i) =~= bs);
    }
}

fn handle_end(kind: TagKind, stack: &mut Vec<Frame>) -> (r: Result<(), MandateError>)
    ensures
        match end_tag(stack_view(old(stack)@), kind) {
            Some(s) => r is Ok && stack_view(final(stack)@) == s,
            None => r matches Err(e) && e is Markdown,
        },
{
    let ghost old_st = stack@;
    match kind {
        TagKind::Table | TagKind::TableHead | TagKind::TableRow | TagKind::TableCell
        | TagKind::FootnoteDefinition | TagKind::Strikethrough | TagKind::MetadataBlock => {
            return Err(md_error("unsupported markdown construct encountered"));
        },
        _ => {},
    }
    let top = match stack.pop() {
        Some(f) => f,
        None => {
            return Err(md_error("end tag without an open container"));
        },
    };
    proof {
        lemma_stack_pop(old_st);
    }
    match (kind, top) {
        (TagKind::Paragraph, Frame::Paragraph { inlines }) => push_block(stack, Block::Paragraph(inlines)),
        (TagKind::Heading, Frame::Heading { level, inlines }) => push_block(
            stack,
            Block::Heading { level, content: inlines },
        ),
        (TagKind::List, Frame::List { kind, items }) => {
            let b = Block::List { kind, items };
            proof {
                lemma_list_items(b);
            }
            push_block(stack, b)
        },
        (TagKind::Item, Frame::ListItem(c)) => {
            let blocks = c.finish();
            let item = ListItem { blocks };
            let ghost mid = stack@;
            match stack.pop() {
                Some(Frame::List { kind, mut items }) => {
                    proof {
                        lemma_stack_pop(mid);
                    }
                    assert(items_view(items@.push(item)) =~= items_view(items@).push(item_view(item)));
                    items.push(item);
                    let f = Frame::List { kind, items };
                    proof {
                        lemma_stack_push(stack@, f);
                    }
                    stack.push(f);
                    assert(stack_view(stack@) =~= set_top(stack_view(mid), frame_view(f)));
                    Ok(())
                },
                _ => Err(md_error("list item parent mismatch")),
            }
        },
        (TagKind::Emphasis, Frame::Emphasis { inlines }) => {
            let i = Inline::Emphasis(inlines);
            proof {
                lemma_inline_children(i);
            }
            push_inline(stack, i)
        },
        (TagKind::Strong, Frame::Strong { inlines }) => {
            let i = Inline::Strong(inlines);
            proof {
                lemma_inline_children(i);
            }
            push_inline(stack, i)
        },
        (TagKind::Link, Frame::Link { url, title, inlines }) => {
            let i = Inline::Link { url, title, content: inlines };
            proof {
                lemma_inline_children(i);
            }
            push_inline(stack, i)
        },
        (TagKind::Image, Frame::Image { inlines }) => {
            let text = inline_text(&inlines);
            push_inline(stack, Inline::Text(string_of(&text)))
        },
        (TagKind::CodeBlock, Frame::CodeBlock { text }) => push_block(stack, Block::CodeBlock { text }),
        (TagKind::HtmlBlock, Frame::HtmlBlock { text }) => {
            let content = vec![Inline::Text(text)];
            assert(inlines_view(content@) =~= seq![inline_view(content@[0])]);
            push_block(stack, Block::Paragraph(content))
        },
        (TagKind::BlockQuote, Frame::BlockContainer(c)) => {
            let blocks = c.finish();
            push_blocks(stack, blocks)
        },
        _ => Err(md_error("end tag does not match the open container")),
    }
}

/// Literal text: appended raw inside a code or HTML block, inline content elsewhere.
fn push_text(stack: &mut Vec<Frame>, t: &String, html: bool) -> (r: Result<(), MandateError>)
    ensures
        match (if html { add_html(stack_view(old(stack)@), t@) } else { add_text(stack_view(old(stack)@), t@) }) {
            Some(s) => r is Ok && stack_view(final(stack)@) == s,
            None => r matches Err(e) && e is Markdown,
        },
{
    let ghost old_st = stack@;
    if stack.len() > 0 {
        let top = stack.pop().unwrap();
        proof {
            lemma_stack_pop(old_st);
        }
        let f = match top {
            Frame::CodeBlock { mut text } => {
                if html {
                    Frame::CodeBlock { text }
                } else {
                    text.append(t.as_str());
                    Frame::CodeBlock { text }
                }
            },
            Frame::HtmlBlock { mut text } => {
                text.append(t.as_str());
                Frame::HtmlBlock { text }
            },
            other => other,
        };
        proof {
            lemma_stack_push(stack@, f);
        }
        let raw = match &f {
            Frame::CodeBlock { .. } => !html,
            Frame::HtmlBlock { .. } => true,
            _ => false,
        };
        stack.push(f);
        if raw {
            assert(stack_view(stack@) =~= set_top(stack_view(old_st), frame_view(f)));
            return Ok(());
        }
        assert(stack_view(stack@) =~= stack_view(old_st));
    }
    push_inline(stack, Inline::Text(t.clone()))
}

proof fn lemma_run_stuck(evs: Seq<MdEvent>, i: int)
    requires
        0 <= i <= evs.len(),
        run(evs.take(i)) is None,
    ensures
        run(evs) is None,
    decreases evs.len() - i,
{
    if i < evs.len() {
        assert(evs.take(i + 1).drop_last() =~= evs.take(i));
        lemma_run_stuck(evs, i + 1);
    } else {
        assert(evs.take(i) =~= evs);
    }
}

fn finish_stack(stack: Vec<Frame>) -> (r: Result<Document, MandateError>)
    ensures
        ({
            let st = stack_view(stack@);
            if st.len() == 1 && st[0] is Document {
                r matches Ok(d) && d@ == finish(st[0]->Document_0)
            } else {
                r matches Err(e) && e is Markdown
            }
        }),
{
    let mut stack = stack;
    if stack.len() != 1 {
        return Err(md_error("unbalanced markdown structure"));
    }
    match stack.pop() {
        Some(Frame::Document(frame)) => Ok(Document { blocks: frame.finish() }),
        _ => Err(md_error("unexpected parser state at end of document")),
    }
}

/// Assembles a document from a stream of parse events.
pub fn parse_events(events: &Vec<MdEvent>) -> (r: Result<Document, MandateError>)
    ensures
        match assemble(events@) {
            Some(bs) => r matches Ok(d) && d@ == bs,
            None => r matches Err(e) && e is Markdown,
        },
{
    let mut stack: Vec<Frame> = Vec::new();
    stack.push(Frame::Document(BlockContainerFrame::new()));
    assert(stack_view(stack@) =~= initial_stack());
    assert(events@.take(0) =~= Seq::empty());
    let mut i: usize = 0;
    while i < events.len()
        invariant
            i <= events.len(),
            run(events@.take(i as int)) == Some(stack_view(stack@)),
        decreases events.len() - i,
    {
        assert(events@.take(i + 1).drop_last() =~= events@.take(i as int));
        let res = match &events[i] {
            MdEvent::Start(tag) => handle_start(tag, &mut stack),
            MdEvent::End(kind) => handle_end(*kind, &mut stack),
            MdEvent::Text(t) => push_text(&mut stack, t, false),
            MdEvent::Code(t) => push_inline(&mut stack, Inline::Code(t.clone())),
            MdEvent::Html(t) => push_text(&mut stack, t, true),
            MdEvent::InlineHtml(t) => push_text(&mut stack, t, true),
            MdEvent::FootnoteReference(t) => push_inline(&mut stack, Inline::Text(t.clone())),
            MdEvent::SoftBreak => push_inline(&mut stack, Inline::LineBreak(LineBreak::Soft)),
            MdEvent::HardBreak => push_inline(&mut stack, Inline::LineBreak(LineBreak::Hard)),
            MdEvent::Rule => Ok(()),
            MdEvent::TaskListMarker(_) => Ok(()),
            MdEvent::InlineMath(_) => Ok(()),
            MdEvent::DisplayMath(_) => Ok(()),
        };
        match res {
            Ok(()) => {},
            Err(e) => {
                proof {
                    lemma_run_stuck(events@, i + 1);
                }
                return Err(e);
            },
        }
        i = i + 1;
    }
    assert(events@.take(i as int) =~= events@);
    finish_stack(stack)
}

/// Parses Markdown text into a document.
pub fn parse_markdown(markdown: &str) -> (r: Result<Document, MandateError>)
    ensures
        match assemble(commonmark_events(markdown@)) {
            Some(bs) => r matches Ok(d) && d@ == bs,
            None => r matches Err(e) && e is Markdown,
        },
{
    let events = markdown_events(markdown);
    parse_events(&events)
}

/// Whether an event opens or closes a table, a footnote definition, a
/// strikethrough or a metadata block.
pub open spec fn is_unsupported_event(e: MdEvent) -> bool {
    match e {
        MdEvent::Start(t) => t is Table || t is TableHead || t is TableRow || t is TableCell
            || t is FootnoteDefinition || t is Strikethrough || t is MetadataBlock,
        MdEvent::End(k) => k is Table || k is TableHead || k is TableRow || k is TableCell
            || k is FootnoteDefinition || k is Strikethrough || k is MetadataBlock,
        _ => false,
    }
}

/// A stream that holds a table, footnote-definition, strikethrough or
/// metadata-block tag describes no document: assembling it is a structural
/// error (by the contract of [`parse_events`], `MandateError::Markdown`).
pub proof fn lemma_unsupported_tags_fail(evs: Seq<MdEvent>, i: int)
    requires
        0 <= i < evs.len(),
        is_unsupported_event(evs[i]),
    ensures
        assemble(evs) is None,
{
    assert(evs.take(i + 1).drop_last() =~= evs.take(i));
    assert(evs.take(i + 1).last() == evs[i]);
    assert(run(evs.take(i + 1)) is None);
    lemma_run_stuck(evs, i + 1);
}

/// Running `a` then `b` is running their concatenation.
pub proof fn lemma_run_from_concat(st: Seq<FrameModel>, a: Seq<MdEvent>, b: Seq<MdEvent>)
    ensures
        run_from(st, a + b) == match run_from(st, a) {
            Some(s) => run_from(s, b),
            None => None,
        },
    decreases b.len(),
{
    if b.len() == 0 {
        assert(a + b =~= a);
    } else {
        assert((a + b).drop_last() =~= a + b.drop_last());
        assert((a + b).last() == b.last());
        lemma_run_from_concat(st, a, b.drop_last());
    }
}

/// The frame a leaf block's start tag opens: a paragraph, heading, code block
/// or HTML block.
pub open spec fn leaf_frame(t: MdTag) -> Option<FrameModel> {
    match t {
        MdTag::Paragraph => Some(FrameModel::Paragraph(Seq::empty())),
        MdTag::Heading(l) => if 1 <= l <= 6 {
            Some(FrameModel::Heading(l, Seq::empty()))
        } else {
            None
        },
        MdTag::CodeBlock => Some(FrameModel::CodeBlock(Seq::empty())),
        MdTag::HtmlBlock => Some(FrameModel::HtmlBlock(Seq::empty())),
        _ => None,
    }
}

pub open spec fn leaf_end(t: MdTag) -> TagKind {
    match t {
        MdTag::Paragraph => TagKind::Paragraph,
        MdTag::Heading(_) => TagKind::Heading,
        MdTag::CodeBlock => TagKind::CodeBlock,
        _ => TagKind::HtmlBlock,
    }
}

/// An event that adds inline content, or nothing, without opening a container.
pub open spec fn inline_leaf(e: MdEvent) -> bool {
    ||| e is Text || e is Code || e is Html || e is InlineHtml || e is FootnoteReference
    ||| e is SoftBreak || e is HardBreak
    ||| e is Rule || e is TaskListMarker || e is InlineMath || e is DisplayMath
}

/// The kind of inline span a start tag opens.
pub open spec fn inline_tag_kind(t: MdTag) -> Option<TagKind> {
    match t {
        MdTag::Emphasis => Some(TagKind::Emphasis),
        MdTag::Strong => Some(TagKind::Strong),
        MdTag::Link { .. } => Some(TagKind::Link),
        MdTag::Image { .. } => Some(TagKind::Image),
        _ => None,
    }
}

/// The inline spans still open after `evs`, innermost last; `None` once an
/// event is neither inline content, nor an inline span's start, nor the end
/// of the innermost open span.
pub open spec fn inline_nesting(evs: Seq<MdEvent>) -> Option<Seq<TagKind>>
    decreases evs.len(),
{
    if evs.len() == 0 {
        Some(Seq::empty())
    } else {
        match inline_nesting(evs.drop_last()) {
            None => None,
            Some(ks) => match evs.last() {
                MdEvent::Start(t) => match inline_tag_kind(t) {
                    Some(k) => Some(ks.push(k)),
                    None => None,
                },
                MdEvent::End(k) => if ks.len() > 0 && ks.last() == k {
                    Some(ks.drop_last())
                } else {
                    None
                },
                e => if inline_leaf(e) {
                    Some(ks)
                } else {
                    None
                },
            },
        }
    }
}

pub open spec fn frame_inline_kind(f: FrameModel) -> Option<TagKind> {
    match f {
        FrameModel::Emphasis(_) => Some(TagKind::Emphasis),
        FrameModel::Strong(_) => Some(TagKind::Strong),
        FrameModel::Link { .. } => Some(TagKind::Link),
        FrameModel::Image(_) => Some(TagKind::Image),
        _ => None,
    }
}

/// Whether `e` may stand in a code or HTML block: its text, and events that add nothing.
pub open spec fn allowed_in(f: FrameModel, e: MdEvent) -> bool {
    let neutral = e is Rule || e is TaskListMarker || e is InlineMath || e is DisplayMath;
    match f {
        FrameModel::CodeBlock(_) => neutral || e is Text,
        FrameModel::HtmlBlock(_) => neutral || e is Text || e is Html || e is InlineHtml,
        _ => false,
    }
}

pub open spec fn same_leaf_kind(a: FrameModel, b: FrameModel) -> bool {
    ||| a is Paragraph && b is Paragraph
    ||| a matches FrameModel::Heading(l, _) && b matches FrameModel::Heading(m, _) && l == m
    ||| a is CodeBlock && b is CodeBlock
    ||| a is HtmlBlock && b is HtmlBlock
}

/// Two frames of the same leaf kind, or the same container with the same blocks.
pub open spec fn same_base(a: FrameModel, b: FrameModel) -> bool {
    ||| same_leaf_kind(a, b)
    ||| a is Document && b is Document && container_of(a).blocks == container_of(b).blocks
    ||| a is ListItem && b is ListItem && container_of(a).blocks == container_of(b).blocks
    ||| a is BlockContainer && b is BlockContainer && container_of(a).blocks == container_of(b).blocks
}

pub open spec fn same_shape(a: FrameModel, b: FrameModel) -> bool {
    same_base(a, b) || (frame_inline_kind(a) is Some && frame_inline_kind(a) == frame_inline_kind(
        b,
    ))
}

proof fn lemma_add_inline_shape(s: Seq<FrameModel>, i: InlineModel)
    requires
        s.len() > 0,
        s.last() is Paragraph || s.last() is Heading || is_container(s.last()) || frame_inline_kind(
            s.last(),
        ) is Some,
    ensures
        add_inline(s, i) matches Some(s2) && s2.len() == s.len() && s2.drop_last() == s.drop_last()
            && same_shape(s.last(), s2.last()),
{
    let s2 = add_inline(s, i)->Some_0;
    assert(s2.drop_last() =~= s.drop_last());
}

proof fn lemma_inline_step(s: Seq<FrameModel>, e: MdEvent)
    requires
        s.len() > 0,
        s.last() is Paragraph || s.last() is Heading || is_container(s.last()) || frame_inline_kind(
            s.last(),
        ) is Some,
        inline_leaf(e),
    ensures
        step(s, e) matches Some(s2) && s2.len() == s.len() && s2.drop_last() == s.drop_last()
            && same_shape(s.last(), s2.last()),
{
    match e {
        MdEvent::Text(t) => lemma_add_inline_shape(s, InlineModel::Text(t@)),
        MdEvent::Code(t) => lemma_add_inline_shape(s, InlineModel::Code(t@)),
        MdEvent::Html(t) => lemma_add_inline_shape(s, InlineModel::Text(t@)),
        MdEvent::InlineHtml(t) => lemma_add_inline_shape(s, InlineModel::Text(t@)),
        MdEvent::FootnoteReference(t) => lemma_add_inline_shape(s, InlineModel::Text(t@)),
        MdEvent::SoftBreak => lemma_add_inline_shape(s, InlineModel::LineBreak(LineBreak::Soft)),
        MdEvent::HardBreak => lemma_add_inline_shape(s, InlineModel::LineBreak(LineBreak::Hard)),
        _ => {},
    }
}

proof fn lemma_inline_body(st: Seq<FrameModel>, f: FrameModel, body: Seq<MdEvent>)
    requires
        f is Paragraph || f is Heading || is_container(f),
        inline_nesting(body) is Some,
    ensures
        ({
            let ks = inline_nesting(body)->Some_0;
            run_from(st.push(f), body) matches Some(s2) && s2.len() == st.len() + 1 + ks.len()
                && s2.take(st.len() as int) == st && same_base(f, s2[st.len() as int])
                && forall|j: int|
                0 <= j < ks.len() ==> frame_inline_kind(#[trigger] s2[st.len() + 1 + j]) == Some(
                    ks[j],
                )
        }),
    decreases body.len(),
{
    let n = st.len() as int;
    if body.len() == 0 {
        assert(st.push(f).take(n) =~= st);
    } else {
        let prev = body.drop_last();
        lemma_inline_body(st, f, prev);
        let ks0 = inline_nesting(prev)->Some_0;
        let ks = inline_nesting(body)->Some_0;
        let s = run_from(st.push(f), prev)->Some_0;
        let e = body.last();
        assert(s.last() == s[s.len() - 1]);
        if ks0.len() > 0 {
            assert(frame_inline_kind(s[n + 1 + (ks0.len() - 1)]) == Some(ks0[ks0.len() - 1]));
        }
        match e {
            MdEvent::Start(t) => {
                let s2 = step(s, e)->Some_0;
                assert(s2 == s.push(s2.last()));
                assert(s2.take(n) =~= s.take(n));
                assert forall|j: int| 0 <= j < ks.len() implies frame_inline_kind(
                    #[trigger] s2[n + 1 + j],
                ) == Some(ks[j]) by {
                    if j < ks0.len() {
                        assert(s2[n + 1 + j] == s[n + 1 + j]);
                    }
                }
            },
            MdEvent::End(k) => {
                let top = s.last();
                let rest = s.drop_last();
                assert(rest.last() == rest[rest.len() - 1]);
                if ks0.len() >= 2 {
                    assert(frame_inline_kind(s[n + 1 + (ks0.len() - 2)]) == Some(ks0[ks0.len() - 2]));
                    assert(rest[rest.len() - 1] == s[n + 1 + (ks0.len() - 2)]);
                } else {
                    assert(rest[rest.len() - 1] == s[n]);
                }
                match top {
                    FrameModel::Emphasis(v) => lemma_add_inline_shape(rest, InlineModel::Emphasis(v)),
                    FrameModel::Strong(v) => lemma_add_inline_shape(rest, InlineModel::Strong(v)),
                    FrameModel::Link { url, title, inlines } => lemma_add_inline_shape(
                        rest,
                        InlineModel::Link { url, title, content: inlines },
                    ),
                    FrameModel::Image(v) => lemma_add_inline_shape(rest, InlineModel::Text(flatten(v))),
                    _ => {},
                }
                let s2 = step(s, e)->Some_0;
                assert(s2.take(n) =~= s.take(n)) by {
                    assert(s2.drop_last() == rest.drop_last());
                }
                assert forall|j: int| 0 <= j < ks.len() implies frame_inline_kind(
                    #[trigger] s2[n + 1 + j],
                ) == Some(ks[j]) by {
                    if n + 1 + j < s2.len() - 1 {
                        assert(s2.drop_last()[n + 1 + j] == rest.drop_last()[n + 1 + j]);
                    } else {
                        assert(s2[n + 1 + j] == s2.last());
                        assert(rest[n + 1 + j] == rest.last());
                    }
                }
                if ks.len() == 0 {
                    assert(s2[n] == s2.last());
                    assert(rest[n] == rest.last());
                } else {
                    assert(s2.drop_last()[n] == rest.drop_last()[n]);
                }
            },
            _ => {
                lemma_inline_step(s, e);
                let s2 = step(s, e)->Some_0;
                assert(s2.take(n) =~= s.take(n)) by {
                    assert(s2.drop_last() == s.drop_last());
                }
                assert forall|j: int| 0 <= j < ks.len() implies frame_inline_kind(
                    #[trigger] s2[n + 1 + j],
                ) == Some(ks[j]) by {
                    if n + 1 + j < s.len() - 1 {
                        assert(s2.drop_last()[n + 1 + j] == s.drop_last()[n + 1 + j]);
                    }
                }
                if ks.len() == 0 {
                    assert(same_base(f, s2[n]));
                } else {
                    assert(s2.drop_last()[n] == s.drop_last()[n]);
                }
            },
        }
    }
}

proof fn lemma_raw_body(st: Seq<FrameModel>, f: FrameModel, body: Seq<MdEvent>)
    requires
        f is CodeBlock || f is HtmlBlock,
        forall|i: int| 0 <= i < body.len() ==> allowed_in(f, #[trigger] body[i]),
    ensures
        run_from(st.push(f), body) matches Some(s2) && s2.len() == st.len() + 1 && s2.drop_last()
            == st && same_leaf_kind(f, s2.last()),
    decreases body.len(),
{
    if body.len() > 0 {
        let prev = body.drop_last();
        assert forall|i: int| 0 <= i < prev.len() implies allowed_in(f, #[trigger] prev[i]) by {
            assert(prev[i] == body[i]);
        }
        lemma_raw_body(st, f, prev);
        let s = run_from(st.push(f), prev)->Some_0;
        assert(allowed_in(f, body[body.len() - 1]));
        let r = step(s, body.last());
        assert(r matches Some(s2) && s2.len() == s.len() && s2.drop_last() =~= s.drop_last()
            && same_leaf_kind(f, s2.last()));
    }
}

/// The events of one leaf block: its start tag, content that opens no block,
/// and the matching end tag. A paragraph or heading holds inline content and
/// properly nested emphasis, strong, link and image spans; a code or HTML
/// block holds its text.
pub open spec fn is_leaf_block(u: Seq<MdEvent>) -> bool {
    &&& u.len() >= 2
    &&& u[0] matches MdEvent::Start(t) && (leaf_frame(t) matches Some(f) && u.last() == MdEvent::End(
        leaf_end(t),
    ) && if f is Paragraph || f is Heading {
        inline_nesting(u.subrange(1, u.len() - 1)) == Some(Seq::<TagKind>::empty())
    } else {
        forall|i: int| 1 <= i < u.len() - 1 ==> allowed_in(f, #[trigger] u[i])
    })
}

/// The blocks' events one after another.
pub open spec fn concat(units: Seq<Seq<MdEvent>>) -> Seq<MdEvent>
    decreases units.len(),
{
    if units.len() == 0 {
        Seq::empty()
    } else {
        concat(units.drop_last()) + units.last()
    }
}

/// The container on top of `s2` is the one on top of `st` with its pending
/// inlines flushed and one block more; the frames below are unchanged.
pub open spec fn gained_block(st: Seq<FrameModel>, s2: Seq<FrameModel>) -> bool {
    &&& s2.len() == st.len()
    &&& s2.drop_last() == st.drop_last()
    &&& is_container(s2.last())
    &&& (st.last() is Document <==> s2.last() is Document)
    &&& (st.last() is ListItem <==> s2.last() is ListItem)
    &&& (st.last() is BlockContainer <==> s2.last() is BlockContainer)
    &&& container_of(s2.last()).pending.len() == 0
    &&& container_of(s2.last()).blocks.len() == flush(container_of(st.last())).blocks.len() + 1
}

proof fn lemma_add_block_gains(st: Seq<FrameModel>, rest: Seq<FrameModel>, b: BlockModel)
    requires
        st.len() > 0,
        is_container(st.last()),
        rest == flush_top(st),
    ensures
        add_block(rest, b) matches Some(s2) && gained_block(st, s2),
{
    let s2 = add_block(rest, b)->Some_0;
    assert(s2.drop_last() =~= st.drop_last());
}

proof fn lemma_leaf_unit_in(st: Seq<FrameModel>, u: Seq<MdEvent>)
    requires
        st.len() > 0,
        is_container(st.last()),
        is_leaf_block(u),
    ensures
        run_from(st, u) matches Some(s2) && gained_block(st, s2),
{
    let n = st.len() as int;
    let t = u[0]->Start_0;
    let f = leaf_frame(t)->Some_0;
    let ft = flush_top(st);
    let body = u.subrange(1, u.len() - 1);
    assert(u =~= seq![u[0]] + body + seq![u.last()]);
    assert(run_from(st, seq![u[0]]) == step(st, u[0])) by {
        assert(seq![u[0]].drop_last() =~= Seq::<MdEvent>::empty());
        assert(run_from(st, Seq::<MdEvent>::empty()) == Some(st));
        assert(seq![u[0]].last() == u[0]);
    }
    assert(step(st, u[0]) == Some(ft.push(f)));
    lemma_run_from_concat(st, seq![u[0]], body);
    if f is Paragraph || f is Heading {
        lemma_inline_body(ft, f, body);
        let s2 = run_from(ft.push(f), body)->Some_0;
        assert(s2.drop_last() =~= s2.take(n));
    } else {
        assert forall|i: int| 0 <= i < body.len() implies allowed_in(f, #[trigger] body[i]) by {
            assert(body[i] == u[i + 1]);
        }
        lemma_raw_body(ft, f, body);
    }
    let s2 = run_from(st, seq![u[0]] + body)->Some_0;
    assert((seq![u[0]] + body + seq![u.last()]).drop_last() =~= seq![u[0]] + body);
    assert(run_from(st, u) == step(s2, u.last()));
    match s2.last() {
        FrameModel::Paragraph(v) => lemma_add_block_gains(st, s2.drop_last(), BlockModel::Paragraph(v)),
        FrameModel::Heading(l, v) => lemma_add_block_gains(
            st,
            s2.drop_last(),
            BlockModel::Heading { level: l, content: v },
        ),
        FrameModel::CodeBlock(x) => lemma_add_block_gains(
            st,
            s2.drop_last(),
            BlockModel::CodeBlock { text: x },
        ),
        FrameModel::HtmlBlock(x) => lemma_add_block_gains(
            st,
            s2.drop_last(),
            BlockModel::Paragraph(seq![InlineModel::Text(x)]),
        ),
        _ => {},
    }
}

/// The shape of a block in a stream: a leaf block's events, or a list whose
/// items are made of parts.
pub enum BlockShape {
    Leaf(Seq<MdEvent>),
    List(Option<u64>, Seq<Seq<ItemPart>>),
}

/// A part of a list item: a block, or loose inline content.
pub enum ItemPart {
    Block(BlockShape),
    Inline(Seq<MdEvent>),
}

pub open spec fn shape_ok(b: BlockShape) -> bool
    decreases b,
{
    match b {
        BlockShape::Leaf(u) => is_leaf_block(u),
        BlockShape::List(_, items) => forall|i: int, j: int|
            0 <= i < items.len() && 0 <= j < items[i].len() ==> match #[trigger] items[i][j] {
                ItemPart::Block(b2) => shape_ok(b2),
                ItemPart::Inline(evs) => inline_nesting(evs) == Some(Seq::<TagKind>::empty()),
            },
    }
}

pub open spec fn shape_events(b: BlockShape) -> Seq<MdEvent>
    decreases b, 1nat,
{
    match b {
        BlockShape::Leaf(u) => u,
        BlockShape::List(start, items) => seq![MdEvent::Start(MdTag::List(start))] + items_events(
            items,
        ) + seq![MdEvent::End(TagKind::List)],
    }
}

pub open spec fn items_events(items: Seq<Seq<ItemPart>>) -> Seq<MdEvent>
    decreases items, 0nat,
{
    if items.len() == 0 {
        Seq::empty()
    } else {
        items_events(items.drop_last()) + seq![MdEvent::Start(MdTag::Item)] + parts_events(
            items.last(),
        ) + seq![MdEvent::End(TagKind::Item)]
    }
}

pub open spec fn parts_events(parts: Seq<ItemPart>) -> Seq<MdEvent>
    decreases parts, 0nat,
{
    if parts.len() == 0 {
        Seq::empty()
    } else {
        parts_events(parts.drop_last()) + match parts.last() {
            ItemPart::Block(b) => shape_events(b),
            ItemPart::Inline(evs) => evs,
        }
    }
}

proof fn lemma_singleton_step(st: Seq<FrameModel>, e: MdEvent)
    ensures
        run_from(st, seq![e]) == step(st, e),
{
    assert(seq![e].drop_last() =~= Seq::<MdEvent>::empty());
    assert(run_from(st, Seq::<MdEvent>::empty()) == Some(st));
    assert(seq![e].last() == e);
}

proof fn lemma_shape_in(st: Seq<FrameModel>, b: BlockShape)
    requires
        st.len() > 0,
        is_container(st.last()),
        shape_ok(b),
    ensures
        run_from(st, shape_events(b)) matches Some(s2) && gained_block(st, s2),
    decreases b, 2nat,
{
    match b {
        BlockShape::Leaf(u) => lemma_leaf_unit_in(st, u),
        BlockShape::List(start, items) => {
            let ft = flush_top(st);
            let open = MdEvent::Start(MdTag::List(start));
            let close = MdEvent::End(TagKind::List);
            let s1 = ft.push(FrameModel::List { kind: list_kind(start), items: Seq::empty() });
            lemma_singleton_step(st, open);
            lemma_run_from_concat(st, seq![open], items_events(items));
            lemma_items(s1, items);
            let s2 = run_from(s1, items_events(items))->Some_0;
            lemma_run_from_concat(st, seq![open] + items_events(items), seq![close]);
            lemma_singleton_step(s2, close);
            assert(s2.drop_last() =~= ft);
            lemma_add_block_gains(
                st,
                s2.drop_last(),
                BlockModel::List { kind: s2.last()->kind, items: s2.last()->items },
            );
        },
    }
}

proof fn lemma_items(st: Seq<FrameModel>, items: Seq<Seq<ItemPart>>)
    requires
        st.len() > 0,
        st.last() is List,
        forall|i: int, j: int|
            0 <= i < items.len() && 0 <= j < items[i].len() ==> match #[trigger] items[i][j] {
                ItemPart::Block(b2) => shape_ok(b2),
                ItemPart::Inline(evs) => inline_nesting(evs) == Some(Seq::<TagKind>::empty()),
            },
    ensures
        run_from(st, items_events(items)) matches Some(s2) && s2.len() == st.len() && s2.drop_last()
            == st.drop_last() && s2.last() is List,
    decreases items, 1nat,
{
    if items.len() == 0 {
        assert(run_from(st, Seq::<MdEvent>::empty()) == Some(st));
    } else {
        let prev = items.drop_last();
        let last = items.last();
        assert forall|i: int, j: int| 0 <= i < prev.len() && 0 <= j < prev[i].len() implies match
            #[trigger] prev[i][j] {
            ItemPart::Block(b2) => shape_ok(b2),
            ItemPart::Inline(evs) => inline_nesting(evs) == Some(Seq::<TagKind>::empty()),
        } by {
            assert(prev[i] == items[i]);
        }
        lemma_items(st, prev);
        let s1 = run_from(st, items_events(prev))->Some_0;
        let open = MdEvent::Start(MdTag::Item);
        let close = MdEvent::End(TagKind::Item);
        let a = items_events(prev);
        let p = parts_events(last);
        assert(items_events(items) == a + seq![open] + p + seq![close]);
        lemma_run_from_concat(st, a, seq![open]);
        lemma_singleton_step(s1, open);
        let s2 = s1.push(FrameModel::ListItem(empty_container()));
        lemma_run_from_concat(st, a + seq![open], p);
        assert forall|j: int| 0 <= j < last.len() implies match #[trigger] last[j] {
            ItemPart::Block(b2) => shape_ok(b2),
            ItemPart::Inline(evs) => inline_nesting(evs) == Some(Seq::<TagKind>::empty()),
        } by {
            assert(last == items[items.len() - 1]);
        }
        lemma_parts(s2, last);
        let s3 = run_from(s2, p)->Some_0;
        lemma_run_from_concat(st, a + seq![open] + p, seq![close]);
        lemma_singleton_step(s3, close);
        let s4 = step(s3, close)->Some_0;
        assert(s3.drop_last() =~= s1);
        assert(s4.drop_last() =~= s1.drop_last());
    }
}

proof fn lemma_parts(st: Seq<FrameModel>, parts: Seq<ItemPart>)
    requires
        st.len() > 0,
        st.last() is ListItem,
        forall|j: int| 0 <= j < parts.len() ==> match #[trigger] parts[j] {
            ItemPart::Block(b2) => shape_ok(b2),
            ItemPart::Inline(evs) => inline_nesting(evs) == Some(Seq::<TagKind>::empty()),
        },
    ensures
        run_from(st, parts_events(parts)) matches Some(s2) && s2.len() == st.len() && s2.drop_last()
            == st.drop_last() && s2.last() is ListItem,
    decreases parts, 0nat,
{
    if parts.len() == 0 {
        assert(run_from(st, Seq::<MdEvent>::empty()) == Some(st));
    } else {
        let prev = parts.drop_last();
        assert forall|j: int| 0 <= j < prev.len() implies match #[trigger] prev[j] {
            ItemPart::Block(b2) => shape_ok(b2),
            ItemPart::Inline(evs) => inline_nesting(evs) == Some(Seq::<TagKind>::empty()),
        } by {
            assert(prev[j] == parts[j]);
        }
        lemma_parts(st, prev);
        let s1 = run_from(st, parts_events(prev))->Some_0;
        let last = parts.last();
        assert(match last {
            ItemPart::Block(b2) => shape_ok(b2),
            ItemPart::Inline(evs) => inline_nesting(evs) == Some(Seq::<TagKind>::empty()),
        }) by {
            assert(last == parts[parts.len() - 1]);
        }
        match last {
            ItemPart::Block(b2) => {
                lemma_run_from_concat(st, parts_events(prev), shape_events(b2));
                lemma_shape_in(s1, b2);
            },
            ItemPart::Inline(evs) => {
                lemma_run_from_concat(st, parts_events(prev), evs);
                assert(s1 =~= s1.drop_last().push(s1.last()));
                lemma_inline_body(s1.drop_last(), s1.last(), evs);
                let s2 = run_from(s1, evs)->Some_0;
                assert(s2.drop_last() =~= s2.take(s1.len() - 1));
                assert(s2.last() == s2[s1.len() - 1]);
            },
        }
    }
}

proof fn lemma_top_shapes(bs: Seq<BlockShape>)
    requires
        forall|k: int| 0 <= k < bs.len() ==> shape_ok(#[trigger] bs[k]),
    ensures
        run(concat(bs.map_values(|b: BlockShape| shape_events(b)))) matches Some(st) && st.len() == 1
            && (st[0] matches FrameModel::Document(c) && c.pending.len() == 0 && c.blocks.len()
            == bs.len()),
    decreases bs.len(),
{
    let evs = bs.map_values(|b: BlockShape| shape_events(b));
    if bs.len() == 0 {
        assert(run(concat(evs)) == Some(initial_stack()));
    } else {
        let prev = bs.drop_last();
        assert forall|k: int| 0 <= k < prev.len() implies shape_ok(#[trigger] prev[k]) by {
            assert(prev[k] == bs[k]);
        }
        lemma_top_shapes(prev);
        assert(evs.drop_last() =~= prev.map_values(|b: BlockShape| shape_events(b)));
        lemma_run_from_concat(initial_stack(), concat(evs.drop_last()), evs.last());
        let st = run(concat(evs.drop_last()))->Some_0;
        assert(st =~= seq![st[0]]);
        assert(shape_ok(bs[bs.len() - 1]));
        lemma_shape_in(st, bs.last());
        let s2 = run(concat(evs))->Some_0;
        assert(s2 =~= seq![s2.last()]);
    }
}

/// A stream made of leaf blocks (paragraphs and headings of inline content
/// with nested spans, code blocks, HTML blocks) and lists, whose items hold
/// such blocks, nested lists and loose inline content, assembles into one
/// document with one top-level block per top-level block-starting event, and
/// leaves the stack holding the document root alone.
pub proof fn lemma_top_level_block_count(bs: Seq<BlockShape>)
    requires
        forall|k: int| 0 <= k < bs.len() ==> shape_ok(#[trigger] bs[k]),
    ensures
        run(concat(bs.map_values(|b: BlockShape| shape_events(b)))) matches Some(st) && st.len()
            == 1,
        assemble(concat(bs.map_values(|b: BlockShape| shape_events(b)))) matches Some(blocks)
            && blocks.len() == bs.len(),
{
    lemma_top_shapes(bs);
}

} // verus!
