//! Reading documents and import responses from JSON.

use crate::block::{
    block_views, fragment_texts, BlockKind, BlockKindView, ContentBlock, ContentBlockView,
    HeadingLevel, InlineTextFragment,
};
use crate::json::{
    item_models, json_document, json_member, json_model, member_of, parse_json, JsonModel,
};
use crate::text::{chars_of, starts_with};
use vstd::prelude::*;
use vstd::string::*;

verus! {

/// The texts of the inline fragments of a rich-text array: the `plain_text`
/// of each item that has one as a string, in order.
pub open spec fn plain_texts(items: Seq<JsonModel>) -> Seq<Seq<char>>
    decreases items.len(),
{
    if items.len() == 0 {
        Seq::empty()
    } else {
        plain_texts(items.drop_last()) + match member_of(items.last(), "plain_text"@) {
            JsonModel::Text(t) => seq![t],
            _ => Seq::empty(),
        }
    }
}

/// The kind of block that a type tag stands for. `payload` is what the
/// block holds under its tag.
pub open spec fn kind_of(tag: Seq<char>, payload: JsonModel) -> BlockKindView {
    if tag == "heading_1"@ {
        BlockKindView::Heading(HeadingLevel::One)
    } else if tag == "heading_2"@ {
        BlockKindView::Heading(HeadingLevel::Two)
    } else if tag == "heading_3"@ {
        BlockKindView::Heading(HeadingLevel::Three)
    } else if tag == "paragraph"@ {
        BlockKindView::Paragraph
    } else if tag == "bulleted_list_item"@ {
        BlockKindView::BulletItem
    } else if tag == "code"@ {
        BlockKindView::CodeBlock {
            language: match member_of(payload, "language"@) {
                JsonModel::Text(l) => l,
                _ => Seq::empty(),
            },
        }
    } else {
        BlockKindView::Other
    }
}

/// The block that a JSON value describes. A value without a type tag
/// describes none, and neither does one of a rendered kind whose rich text is
/// no array. A value of any other kind describes a block without text.
pub open spec fn block_of(v: JsonModel) -> Option<ContentBlockView> {
    match member_of(v, "type"@) {
        JsonModel::Text(tag) => {
            let payload = member_of(v, tag);
            let kind = kind_of(tag, payload);
            if kind is Other {
                Some(ContentBlockView { kind, fragments: Seq::empty() })
            } else {
                match member_of(payload, "rich_text"@) {
                    JsonModel::Array(items) => Some(
                        ContentBlockView { kind, fragments: plain_texts(items) },
                    ),
                    _ => None,
                }
            }
        },
        _ => None,
    }
}

/// The blocks that a run of JSON values describes, in order.
pub open spec fn blocks_of(items: Seq<JsonModel>) -> Seq<ContentBlockView>
    decreases items.len(),
{
    if items.len() == 0 {
        Seq::empty()
    } else {
        blocks_of(items.drop_last()) + match block_of(items.last()) {
            Some(b) => seq![b],
            None => Seq::empty(),
        }
    }
}

/// The blocks of a document payload: those that the array under `results`
/// describes. A payload of any other shape has no blocks.
pub open spec fn blocks_of_payload(root: JsonModel) -> Seq<ContentBlockView> {
    match member_of(root, "results"@) {
        JsonModel::Array(items) => blocks_of(items),
        _ => Seq::empty(),
    }
}

/// The blocks of a payload given as text. A text that is no JSON document
/// has no blocks.
pub open spec fn blocks_of_text(doc: Option<JsonModel>) -> Seq<ContentBlockView> {
    match doc {
        Some(root) => blocks_of_payload(root),
        None => Seq::empty(),
    }
}

/// The value of a block that may be absent.
pub open spec fn block_view(block: Option<ContentBlock>) -> Option<ContentBlockView> {
    match block {
        Some(b) => Some(b@),
        None => None,
    }
}

/// Whether `chars` spells exactly `literal`.
fn spells(chars: &Vec<char>, literal: &str) -> (r: bool)
    ensures
        r == (chars@ == literal@),
{
    assert(chars@.subrange(0, chars.len() as int) =~= chars@);
    let r = starts_with(chars, 0, chars.len(), literal) && literal.unicode_len() == chars.len();
    assert(r ==> chars@ =~= chars@.take(literal@.len() as int));
    r
}

/// Reads the inline fragments of a rich-text array.
pub fn fragments_from_json(items: &Vec<serde_json::Value>) -> (fragments: Vec<InlineTextFragment>)
    ensures
        fragment_texts(fragments@) == plain_texts(item_models(items@)),
{
    let ghost models = item_models(items@);
    let mut fragments: Vec<InlineTextFragment> = Vec::new();
    let mut i: usize = 0;
    assert(fragment_texts(fragments@) =~= Seq::empty());
    while i < items.len()
        invariant
            i <= items.len(),
            models == item_models(items@),
            fragment_texts(fragments@) == plain_texts(models.take(i as int)),
        decreases items.len() - i,
    {
        let ghost before = fragment_texts(fragments@);
        proof {
            assert(models.take(i + 1).drop_last() =~= models.take(i as int));
            assert(models.take(i + 1).last() == json_model(items@[i as int]));
        }
        match json_member(&items[i], "plain_text").as_str() {
            Some(t) => {
                fragments.push(InlineTextFragment { plain_text: t.to_owned() });
                assert(fragment_texts(fragments@) =~= before + seq![t@]);
            },
            None => {
                assert(before + Seq::<Seq<char>>::empty() =~= before);
            },
        }
        i += 1;
    }
    assert(models.take(items.len() as int) =~= models);
    fragments
}

/// Reads one block from the JSON value that describes it.
pub fn block_from_json(v: &serde_json::Value) -> (block: Option<ContentBlock>)
    ensures
        block_view(block) == block_of(json_model(*v)),
{
    let tag = match json_member(v, "type").as_str() {
        Some(tag) => tag,
        None => {
            return None;
        },
    };
    let payload = json_member(v, tag);
    let chars = chars_of(tag);
    let kind = if spells(&chars, "heading_1") {
        BlockKind::Heading(HeadingLevel::One)
    } else if spells(&chars, "heading_2") {
        BlockKind::Heading(HeadingLevel::Two)
    } else if spells(&chars, "heading_3") {
        BlockKind::Heading(HeadingLevel::Three)
    } else if spells(&chars, "paragraph") {
        BlockKind::Paragraph
    } else if spells(&chars, "bulleted_list_item") {
        BlockKind::BulletItem
    } else if spells(&chars, "code") {
        let language = match json_member(payload, "language").as_str() {
            Some(l) => l.to_owned(),
            None => String::new(),
        };
        BlockKind::CodeBlock { language }
    } else {
        let block = ContentBlock { kind: BlockKind::Other, rich_text: Vec::new() };
        assert(fragment_texts(block.rich_text@) =~= Seq::empty());
        return Some(block);
    };
    match json_member(payload, "rich_text").as_array() {
        Some(items) => Some(ContentBlock { kind, rich_text: fragments_from_json(items) }),
        None => None,
    }
}

/// Reads the blocks of a document from its parsed payload.
pub fn blocks_from_json(root: &serde_json::Value) -> (blocks: Vec<ContentBlock>)
    ensures
        block_views(blocks@) == blocks_of_payload(json_model(*root)),
{
    let mut blocks: Vec<ContentBlock> = Vec::new();
    assert(block_views(blocks@) =~= Seq::empty());
    let items = match json_member(root, "results").as_array() {
        Some(items) => items,
        None => {
            return blocks;
        },
    };
    let ghost models = item_models(items@);
    let mut i: usize = 0;
    while i < items.len()
        invariant
            i <= items.len(),
            models == item_models(items@),
            block_views(blocks@) == blocks_of(models.take(i as int)),
        decreases items.len() - i,
    {
        let ghost before = block_views(blocks@);
        proof {
            assert(models.take(i + 1).drop_last() =~= models.take(i as int));
            assert(models.take(i + 1).last() == json_model(items@[i as int]));
        }
        match block_from_json(&items[i]) {
            Some(b) => {
                let ghost bv = b@;
                blocks.push(b);
                assert(block_views(blocks@) =~= before + seq![bv]);
            },
            None => {
                assert(before + Seq::<ContentBlockView>::empty() =~= before);
            },
        }
        i += 1;
    }
    assert(models.take(items.len() as int) =~= models);
    blocks
}

/// Reads the blocks of a document from the text of its payload. A payload
/// that cannot be read, or that has another shape than expected, gives no
/// blocks.
pub fn decode_blocks(payload: &str) -> (blocks: Vec<ContentBlock>)
    ensures
        block_views(blocks@) == blocks_of_text(json_document(payload@)),
{
    match parse_json(payload) {
        Ok(root) => blocks_from_json(&root),
        Err(_) => {
            let blocks: Vec<ContentBlock> = Vec::new();
            assert(block_views(blocks@) =~= Seq::empty());
            blocks
        },
    }
}

/// What an import sink answered to one card.
#[derive(Clone, Copy, Debug, PartialEq, Eq)]
pub enum ImportOutcome {
    /// The sink took the card.
    Accepted,
    /// The sink reported an error.
    Rejected,
    /// The answer is no JSON document.
    Unreadable,
}

/// The outcome that a parsed answer reports: the card was taken exactly
/// where the answer holds no error, which is where its `error` member is null
/// or missing.
pub open spec fn outcome_of(root: JsonModel) -> ImportOutcome {
    if member_of(root, "error"@) is Null {
        ImportOutcome::Accepted
    } else {
        ImportOutcome::Rejected
    }
}

/// The outcome that the text of an answer reports.
pub open spec fn outcome_of_text(doc: Option<JsonModel>) -> ImportOutcome {
    match doc {
        Some(root) => outcome_of(root),
        None => ImportOutcome::Unreadable,
    }
}

/// Reads the outcome of an import from the sink's parsed answer.
pub fn outcome_from_json(root: &serde_json::Value) -> (outcome: ImportOutcome)
    ensures
        outcome == outcome_of(json_model(*root)),
{
    if json_member(root, "error").is_null() {
        ImportOutcome::Accepted
    } else {
        ImportOutcome::Rejected
    }
}

/// Reads the outcome of an import from the text of the sink's answer.
pub fn import_outcome(response: &str) -> (outcome: ImportOutcome)
    ensures
        outcome == outcome_of_text(json_document(response@)),
{
    match parse_json(response) {
        Ok(root) => outcome_from_json(&root),
        Err(_) => ImportOutcome::Unreadable,
    }
}

} // verus!
