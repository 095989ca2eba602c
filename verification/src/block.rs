//! Content blocks and their rendering to line-oriented text.

use crate::text::concat_all;
use vstd::prelude::*;
use vstd::string::*;

verus! {

/// A plain run of inline text.
#[derive(Clone, Debug, PartialEq, Eq)]
pub struct InlineTextFragment {
    pub plain_text: String,
}

/// The three heading levels that are rendered.
#[derive(Clone, Copy, Debug, PartialEq, Eq)]
pub enum HeadingLevel {
    One,
    Two,
    Three,
}

/// What kind of block a [`ContentBlock`] is.
#[derive(Clone, Debug, PartialEq, Eq)]
pub enum BlockKind {
    Heading(HeadingLevel),
    Paragraph,
    BulletItem,
    CodeBlock { language: String },
    Other,
}

/// One block of a document: its kind and its inline text, in order.
#[derive(Clone, Debug, PartialEq, Eq)]
pub struct ContentBlock {
    pub kind: BlockKind,
    pub rich_text: Vec<InlineTextFragment>,
}

/// The mathematical value of a [`BlockKind`].
pub ghost enum BlockKindView {
    Heading(HeadingLevel),
    Paragraph,
    BulletItem,
    CodeBlock { language: Seq<char> },
    Other,
}

/// The mathematical value of a [`ContentBlock`].
pub ghost struct ContentBlockView {
    pub kind: BlockKindView,
    pub fragments: Seq<Seq<char>>,
}

impl View for InlineTextFragment {
    type V = Seq<char>;

    open spec fn view(&self) -> Seq<char> {
        self.plain_text@
    }
}

impl View for BlockKind {
    type V = BlockKindView;

    open spec fn view(&self) -> BlockKindView {
        match *self {
            BlockKind::Heading(level) => BlockKindView::Heading(level),
            BlockKind::Paragraph => BlockKindView::Paragraph,
            BlockKind::BulletItem => BlockKindView::BulletItem,
            BlockKind::CodeBlock { language } => BlockKindView::CodeBlock { language: language@ },
            BlockKind::Other => BlockKindView::Other,
        }
    }
}

impl View for ContentBlock {
    type V = ContentBlockView;

    open spec fn view(&self) -> ContentBlockView {
        ContentBlockView { kind: self.kind@, fragments: fragment_texts(self.rich_text@) }
    }
}

/// The texts of a run of fragments, in order.
pub open spec fn fragment_texts(fragments: Seq<InlineTextFragment>) -> Seq<Seq<char>> {
    fragments.map_values(|f: InlineTextFragment| f@)
}

/// The values of a run of blocks, in order.
pub open spec fn block_views(blocks: Seq<ContentBlock>) -> Seq<ContentBlockView> {
    blocks.map_values(|b: ContentBlock| b@)
}

/// The marker that opens a heading line of the given level.
pub open spec fn heading_prefix(level: HeadingLevel) -> Seq<char> {
    match level {
        HeadingLevel::One => "# "@,
        HeadingLevel::Two => "## "@,
        HeadingLevel::Three => "### "@,
    }
}

/// The text that one block renders to.
pub open spec fn rendered_block(block: ContentBlockView) -> Seq<char> {
    let text = concat_all(block.fragments);
    match block.kind {
        BlockKindView::Heading(level) => heading_prefix(level) + text + "\n\n"@,
        BlockKindView::Paragraph => text + "\n\n"@,
        BlockKindView::BulletItem => "- "@ + text + "\n"@,
        BlockKindView::CodeBlock { language } => "```"@ + language + "\n"@ + text + "\n```\n\n"@,
        BlockKindView::Other => "\n"@,
    }
}

/// The text that a run of blocks renders to: each block's text, in order.
pub open spec fn rendered_blocks(blocks: Seq<ContentBlockView>) -> Seq<char>
    decreases blocks.len(),
{
    if blocks.len() == 0 {
        Seq::empty()
    } else {
        rendered_blocks(blocks.drop_last()) + rendered_block(blocks.last())
    }
}

/// Joins inline fragments into one string, with nothing between them. An
/// empty run gives the empty string.
pub fn extract_rich_text(fragments: &Vec<InlineTextFragment>) -> (text: String)
    ensures
        text@ == concat_all(fragment_texts(fragments@)),
{
    let ghost parts = fragment_texts(fragments@);
    let mut text = String::new();
    let mut i: usize = 0;
    while i < fragments.len()
        invariant
            i <= fragments.len(),
            parts == fragment_texts(fragments@),
            text@ == concat_all(parts.take(i as int)),
        decreases fragments.len() - i,
    {
        text.append(fragments[i].plain_text.as_str());
        proof {
            assert(parts.take(i + 1).drop_last() =~= parts.take(i as int));
            assert(parts.take(i + 1).last() == fragments@[i as int]@);
        }
        i += 1;
    }
    assert(parts.take(fragments.len() as int) =~= parts);
    text
}

/// Renders one block as text. Every block renders to something; a block of a
/// kind that is not rendered holds its place with an empty line.
pub fn render_block(block: &ContentBlock) -> (text: String)
    ensures
        text@ == rendered_block(block@),
{
    let mut text = String::new();
    match &block.kind {
        BlockKind::Heading(level) => {
            match level {
                HeadingLevel::One => text.append("# "),
                HeadingLevel::Two => text.append("## "),
                HeadingLevel::Three => text.append("### "),
            }
            text.append(extract_rich_text(&block.rich_text).as_str());
            text.append("\n\n");
        },
        BlockKind::Paragraph => {
            text.append(extract_rich_text(&block.rich_text).as_str());
            text.append("\n\n");
        },
        BlockKind::BulletItem => {
            text.append("- ");
            text.append(extract_rich_text(&block.rich_text).as_str());
            text.append("\n");
        },
        BlockKind::CodeBlock { language } => {
            text.append("```");
            text.append(language.as_str());
            text.append("\n");
            text.append(extract_rich_text(&block.rich_text).as_str());
            text.append("\n```\n\n");
        },
        BlockKind::Other => {
            text.append("\n");
        },
    }
    text
}

/// Renders a run of blocks as one text document, block after block.
pub fn convert_blocks_to_markdown(blocks: &Vec<ContentBlock>) -> (text: String)
    ensures
        text@ == rendered_blocks(block_views(blocks@)),
{
    let ghost views = block_views(blocks@);
    let mut text = String::new();
    let mut i: usize = 0;
    while i < blocks.len()
        invariant
            i <= blocks.len(),
            views == block_views(blocks@),
            text@ == rendered_blocks(views.take(i as int)),
        decreases blocks.len() - i,
    {
        text.append(render_block(&blocks[i]).as_str());
        proof {
            assert(views.take(i + 1).drop_last() =~= views.take(i as int));
            assert(views.take(i + 1).last() == blocks@[i as int]@);
        }
        i += 1;
    }
    assert(views.take(blocks.len() as int) =~= views);
    text
}

/// Rendering keeps the order of the blocks and treats each block on its own:
/// two runs of blocks, one after the other, render to the text of the first
/// followed by the text of the second.
pub proof fn lemma_rendering_is_sequential(a: Seq<ContentBlockView>, b: Seq<ContentBlockView>)
    ensures
        rendered_blocks(a + b) == rendered_blocks(a) + rendered_blocks(b),
    decreases b.len(),
{
    if b.len() == 0 {
        assert(a + b =~= a);
    } else {
        assert((a + b).drop_last() =~= a + b.drop_last());
        lemma_rendering_is_sequential(a, b.drop_last());
    }
}

} // verus!
