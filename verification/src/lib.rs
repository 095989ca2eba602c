//! Extraction of question/answer flashcards from marked-up documents.
//!
//! Content blocks are rendered to line-oriented text, the text is scanned for
//! question and answer markers, and every completed pair becomes a
//! [`Flashcard`](parser::Flashcard).

pub mod block;
pub mod decode;
pub mod emitter;
pub mod json;
pub mod laws;
pub mod marker;
pub mod parser;
pub mod text;

pub use block::{
    convert_blocks_to_markdown, extract_rich_text, BlockKind, ContentBlock, HeadingLevel,
    InlineTextFragment,
};
pub use decode::{decode_blocks, import_outcome, ImportOutcome};
pub use emitter::CardEmitter;
pub use marker::{classify_line, MarkerLine};
pub use parser::{
    extract_flashcards, parse_flashcards_from_markdown, Flashcard, ParseMode, ParserState,
};
