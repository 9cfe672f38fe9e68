//! The document tree: blocks and inlines, their mathematical views, and the
//! flattening of inline content to plain text.
use vstd::prelude::*;

verus! {

#[derive(Debug)]
pub struct Document {
    pub blocks: Vec<Block>,
}

#[derive(Debug)]
pub enum Block {
    Heading { level: u8, content: Vec<Inline> },
    Paragraph(Vec<Inline>),
    List { kind: ListKind, items: Vec<ListItem> },
    CodeBlock { text: String },
}

#[derive(Debug, Clone, Copy, PartialEq, Eq, Structural)]
pub enum ListKind {
    Unordered,
    Ordered { start: u64 },
}

#[derive(Debug)]
pub struct ListItem {
    pub blocks: Vec<Block>,
}

#[derive(Debug)]
pub enum Inline {
    Text(String),
    Code(String),
    Emphasis(Vec<Inline>),
    Strong(Vec<Inline>),
    Link { url: String, title: Option<String>, content: Vec<Inline> },
    LineBreak(LineBreak),
}

#[derive(Debug, Clone, Copy, PartialEq, Eq, Structural)]
pub enum LineBreak {
    Soft,
    Hard,
}

/// The mathematical value of an [`Inline`].
pub enum InlineModel {
    Text(Seq<char>),
    Code(Seq<char>),
    Emphasis(Seq<InlineModel>),
    Strong(Seq<InlineModel>),
    Link { url: Seq<char>, title: Option<Seq<char>>, content: Seq<InlineModel> },
    LineBreak(LineBreak),
}

/// The mathematical value of a [`Block`]; a list item is the sequence of its blocks.
pub enum BlockModel {
    Heading { level: u8, content: Seq<InlineModel> },
    Paragraph(Seq<InlineModel>),
    List { kind: ListKind, items: Seq<Seq<BlockModel>> },
    CodeBlock { text: Seq<char> },
}

pub open spec fn opt_view(o: Option<String>) -> Option<Seq<char>> {
    match o {
        Some(s) => Some(s@),
        None => None,
    }
}

pub open spec fn inline_view(i: Inline) -> InlineModel
    decreases i,
{
    match i {
        Inline::Text(t) => InlineModel::Text(t@),
        Inline::Code(t) => InlineModel::Code(t@),
        Inline::Emphasis(c) => InlineModel::Emphasis(
            Seq::new(
                c.len() as nat,
                |k: int|
                    if 0 <= k < c.len() {
                        inline_view(c[k])
                    } else {
                        InlineModel::LineBreak(LineBreak::Soft)
                    },
            ),
        ),
        Inline::Strong(c) => InlineModel::Strong(
            Seq::new(
                c.len() as nat,
                |k: int|
                    if 0 <= k < c.len() {
                        inline_view(c[k])
                    } else {
                        InlineModel::LineBreak(LineBreak::Soft)
                    },
            ),
        ),
        Inline::Link { url, title, content } => InlineModel::Link {
            url: url@,
            title: opt_view(title),
            content: Seq::new(
                content.len() as nat,
                |k: int|
                    if 0 <= k < content.len() {
                        inline_view(content[k])
                    } else {
                        InlineModel::LineBreak(LineBreak::Soft)
                    },
            ),
        },
        Inline::LineBreak(b) => InlineModel::LineBreak(b),
    }
}

pub open spec fn inlines_view(s: Seq<Inline>) -> Seq<InlineModel> {
    s.map_values(|i: Inline| inline_view(i))
}

pub open spec fn block_view(b: Block) -> BlockModel
    decreases b,
{
    match b {
        Block::Heading { level, content } => BlockModel::Heading {
            level,
            content: inlines_view(content@),
        },
        Block::Paragraph(c) => BlockModel::Paragraph(inlines_view(c@)),
        Block::List { kind, items } => BlockModel::List {
            kind,
            items: Seq::new(
                items.len() as nat,
                |k: int|
                    if 0 <= k < items.len() {
                        Seq::new(
                            items[k].blocks.len() as nat,
                            |j: int|
                                if 0 <= j < items[k].blocks.len() {
                                    block_view(items[k].blocks[j])
                                } else {
                                    BlockModel::CodeBlock { text: Seq::empty() }
                                },
                        )
                    } else {
                        Seq::empty()
                    },
            ),
        },
        Block::CodeBlock { text } => BlockModel::CodeBlock { text: text@ },
    }
}

pub open spec fn blocks_view(s: Seq<Block>) -> Seq<BlockModel> {
    s.map_values(|b: Block| block_view(b))
}

pub open spec fn item_view(it: ListItem) -> Seq<BlockModel> {
    blocks_view(it.blocks@)
}

pub open spec fn items_view(s: Seq<ListItem>) -> Seq<Seq<BlockModel>> {
    s.map_values(|it: ListItem| item_view(it))
}

impl View for Document {
    type V = Seq<BlockModel>;

    open spec fn view(&self) -> Seq<BlockModel> {
        blocks_view(self.blocks@)
    }
}

/// The views of an inline's children are the views of the child vector's elements.
pub proof fn lemma_inline_children(i: Inline)
    ensures
        match i {
            Inline::Emphasis(c) => inline_view(i) == InlineModel::Emphasis(inlines_view(c@)),
            Inline::Strong(c) => inline_view(i) == InlineModel::Strong(inlines_view(c@)),
            Inline::Link { url, title, content } => inline_view(i) == (InlineModel::Link {
                url: url@,
                title: opt_view(title),
                content: inlines_view(content@),
            }),
            _ => true,
        },
{
    match i {
        Inline::Emphasis(c) => {
            assert(inline_view(i)->Emphasis_0 =~= inlines_view(c@));
        },
        Inline::Strong(c) => {
            assert(inline_view(i)->Strong_0 =~= inlines_view(c@));
        },
        Inline::Link { url, title, content } => {
            assert(inline_view(i)->Link_content =~= inlines_view(content@));
        },
        _ => {},
    }
}

/// The view of a list block holds the views of its items.
pub proof fn lemma_list_items(b: Block)
    ensures
        b matches Block::List { kind, items } ==> block_view(b) == (BlockModel::List {
            kind,
            items: items_view(items@),
        }),
{
    if let Block::List { kind, items } = b {
        assert forall|k: int| 0 <= k < items.len() implies block_view(b)->items[k]
            =~= items_view(items@)[k] by {}
        assert(block_view(b)->items =~= items_view(items@));
    }
}

/// Inline content as plain text: text and code verbatim, containers by their
/// content, each line break as a newline.
pub open spec fn flatten(s: Seq<InlineModel>) -> Seq<char>
    decreases s,
{
    if s.len() == 0 {
        Seq::empty()
    } else {
        flatten(s.drop_last()) + flatten_one(s.last())
    }
}

pub open spec fn flatten_one(i: InlineModel) -> Seq<char>
    decreases i,
{
    match i {
        InlineModel::Text(t) => t,
        InlineModel::Code(t) => t,
        InlineModel::Emphasis(c) => flatten(c),
        InlineModel::Strong(c) => flatten(c),
        InlineModel::Link { content, .. } => flatten(content),
        InlineModel::LineBreak(_) => seq!['\n'],
    }
}

/// The plain text of inline content (see [`flatten`]).
pub fn inline_text(inlines: &Vec<Inline>) -> (r: Vec<char>)
    ensures
        r@ == flatten(inlines_view(inlines@)),
    decreases inlines,
{
    let mut out: Vec<char> = Vec::new();
    let mut k: usize = 0;
    while k < inlines.len()
        invariant
            k <= inlines.len(),
            out@ == flatten(inlines_view(inlines@).take(k as int)),
        decreases inlines.len() - k,
    {
        let ghost before = out@;
        proof {
            lemma_inline_children(inlines[k as int]);
        }
        match &inlines[k] {
            Inline::Text(t) => {
                crate::text::extend_str(&mut out, t.as_str());
            },
            Inline::Code(t) => {
                crate::text::extend_str(&mut out, t.as_str());
            },
            Inline::Emphasis(c) => {
                let inner = inline_text(c);
                crate::text::extend(&mut out, &inner);
            },
            Inline::Strong(c) => {
                let inner = inline_text(c);
                crate::text::extend(&mut out, &inner);
            },
            Inline::Link { content, .. } => {
                let inner = inline_text(content);
                crate::text::extend(&mut out, &inner);
            },
            Inline::LineBreak(_) => {
                out.push('\n');
            },
        }
        let ghost v = inlines_view(inlines@);
        assert(v.take(k + 1).drop_last() =~= v.take(k as int));
        assert(v.take(k + 1).last() == inline_view(inlines@[k as int]));
        assert(out@ == before + flatten_one(inline_view(inlines@[k as int])));
        assert(flatten(v.take(k + 1)) == flatten(v.take(k as int)) + flatten_one(v[k as int]));
        k = k + 1;
    }
    assert(inlines_view(inlines@).take(k as int) =~= inlines_view(inlines@));
    out
}

impl Clone for Inline {
    fn clone(&self) -> (r: Self)
        ensures
            inline_view(r) == inline_view(*self),
        decreases self, 1nat,
    {
        proof {
            lemma_inline_children(*self);
        }
        match self {
            Inline::Text(t) => Inline::Text(t.clone()),
            Inline::Code(t) => Inline::Code(t.clone()),
            Inline::Emphasis(c) => {
                let r = Inline::Emphasis(clone_inlines(c));
                proof {
                    lemma_inline_children(r);
                }
                r
            },
            Inline::Strong(c) => {
                let r = Inline::Strong(clone_inlines(c));
                proof {
                    lemma_inline_children(r);
                }
                r
            },
            Inline::Link { url, title, content } => {
                let r = Inline::Link {
                    url: url.clone(),
                    title: match title {
                        Some(t) => Some(t.clone()),
                        None => None,
                    },
                    content: clone_inlines(content),
                };
                proof {
                    lemma_inline_children(r);
                }
                r
            },
            Inline::LineBreak(b) => Inline::LineBreak(*b),
        }
    }
}

fn clone_inlines(v: &Vec<Inline>) -> (r: Vec<Inline>)
    ensures
        inlines_view(r@) == inlines_view(v@),
    decreases v, 0nat,
{
    let mut out: Vec<Inline> = Vec::new();
    let mut k: usize = 0;
    while k < v.len()
        invariant
            k <= v.len(),
            out.len() == k,
            forall|j: int| 0 <= j < k ==> inline_view(#[trigger] out@[j]) == inline_view(v@[j]),
        decreases v.len() - k,
    {
        out.push(v[k].clone());
        k = k + 1;
    }
    assert(inlines_view(out@) =~= inlines_view(v@));
    out
}

impl Clone for Block {
    fn clone(&self) -> (r: Self)
        ensures
            block_view(r) == block_view(*self),
        decreases self, 1nat,
    {
        match self {
            Block::Heading { level, content } => Block::Heading {
                level: *level,
                content: clone_inlines(content),
            },
            Block::Paragraph(c) => Block::Paragraph(clone_inlines(c)),
            Block::List { kind, items } => {
                let r = Block::List { kind: *kind, items: clone_items(items) };
                proof {
                    lemma_list_items(*self);
                    lemma_list_items(r);
                }
                r
            },
            Block::CodeBlock { text } => Block::CodeBlock { text: text.clone() },
        }
    }
}

impl Clone for ListItem {
    fn clone(&self) -> (r: Self)
        ensures
            item_view(r) == item_view(*self),
        decreases self, 1nat,
    {
        ListItem { blocks: clone_blocks(&self.blocks) }
    }
}

impl Clone for Document {
    fn clone(&self) -> (r: Self)
        ensures
            r@ == self@,
    {
        Document { blocks: clone_blocks(&self.blocks) }
    }
}

fn clone_blocks(v: &Vec<Block>) -> (r: Vec<Block>)
    ensures
        blocks_view(r@) == blocks_view(v@),
    decreases v, 0nat,
{
    let mut out: Vec<Block> = Vec::new();
    let mut k: usize = 0;
    while k < v.len()
        invariant
            k <= v.len(),
            out.len() == k,
            forall|j: int| 0 <= j < k ==> block_view(#[trigger] out@[j]) == block_view(v@[j]),
        decreases v.len() - k,
    {
        out.push(v[k].clone());
        k = k + 1;
    }
    assert(blocks_view(out@) =~= blocks_view(v@));
    out
}

fn clone_items(v: &Vec<ListItem>) -> (r: Vec<ListItem>)
    ensures
        items_view(r@) == items_view(v@),
    decreases v, 0nat,
{
    let mut out: Vec<ListItem> = Vec::new();
    let mut k: usize = 0;
    while k < v.len()
        invariant
            k <= v.len(),
            out.len() == k,
            forall|j: int| 0 <= j < k ==> item_view(#[trigger] out@[j]) == item_view(v@[j]),
        decreases v.len() - k,
    {
        out.push(v[k].clone());
        k = k + 1;
    }
    assert(items_view(out@) =~= items_view(v@));
    out
}

} // verus!
