//! The line-by-line state machine that assembles flashcards.

use crate::block::{block_views, convert_blocks_to_markdown, rendered_blocks, ContentBlock};
use crate::marker::{
    classify, classify_chars, marker_table, markers, table_view, MarkerLine, MarkerLineView,
};
use crate::text::{chars_of, line_end, split_lines, string_of, trim, trim_bounds};
use vstd::prelude::*;
use vstd::string::*;

verus! {

/// Which lines of a document are read.
#[derive(Clone, Copy, Debug, PartialEq, Eq)]
pub enum ParseMode {
    /// Every line is read.
    Unrestricted,
    /// Only the lines inside a fenced region are read.
    FenceGated,
}

/// A question with its answer.
#[derive(Clone, Debug, PartialEq, Eq)]
pub struct Flashcard {
    pub question: String,
    pub answer: String,
}

/// The mathematical value of a [`Flashcard`].
pub ghost struct FlashcardView {
    pub question: Seq<char>,
    pub answer: Seq<char>,
}

impl View for Flashcard {
    type V = FlashcardView;

    open spec fn view(&self) -> FlashcardView {
        FlashcardView { question: self.question@, answer: self.answer@ }
    }
}

/// What a parsing pass has accumulated so far. It belongs to one pass.
pub struct ParserState {
    current_question: Option<String>,
    current_answer: Vec<char>,
    in_code_fence: bool,
}

/// The mathematical value of a [`ParserState`].
pub ghost struct ParserStateView {
    /// The text of the open question, if one is open.
    pub question: Option<Seq<char>>,
    /// The answer text gathered for the open question.
    pub answer: Seq<char>,
    /// Whether the last line read lies inside a fenced region.
    pub in_fence: bool,
}

impl View for ParserState {
    type V = ParserStateView;

    closed spec fn view(&self) -> ParserStateView {
        ParserStateView {
            question: match self.current_question {
                Some(q) => Some(q@),
                None => None,
            },
            answer: self.current_answer@,
            in_fence: self.in_code_fence,
        }
    }
}

/// The state in which a pass begins: no question open, nothing gathered,
/// outside any fence.
pub open spec fn initial_state() -> ParserStateView {
    ParserStateView { question: None, answer: Seq::empty(), in_fence: false }
}

/// Whether a line read in state `s` is looked at, beyond toggling a fence.
pub open spec fn eligible(s: ParserStateView, mode: ParseMode) -> bool {
    mode == ParseMode::Unrestricted || s.in_fence
}

/// The card that a question and the answer text gathered for it amount to:
/// it takes a question that is not empty and gathered text that is not empty.
/// The answer of the card is the gathered text, trimmed.
pub open spec fn finished(question: Seq<char>, gathered: Seq<char>) -> Option<FlashcardView> {
    if question.len() > 0 && gathered.len() > 0 {
        Some(FlashcardView { question, answer: trim(gathered) })
    } else {
        None
    }
}

/// The card that the draft in `s` amounts to, if a question is open and the
/// draft is complete.
pub open spec fn completed(s: ParserStateView) -> Option<FlashcardView> {
    match s.question {
        Some(question) => finished(question, s.answer),
        None => None,
    }
}

/// The state after reading `line` in state `s`.
///
/// A fence line toggles the fence and is used up. Of the other lines, one
/// that is not looked at changes nothing. A question line opens its question
/// with nothing gathered. While a question is open, an answer line adds its
/// text and a line break to what is gathered, and a free line that is not
/// empty adds its text, behind one line break where text is gathered that does
/// not end with one already: the lines of an answer are one line break apart.
pub open spec fn next_state(
    s: ParserStateView,
    line: MarkerLineView,
    mode: ParseMode,
) -> ParserStateView {
    match line {
        MarkerLineView::FenceToggle => ParserStateView { in_fence: !s.in_fence, ..s },
        MarkerLineView::QuestionStart(q) => if eligible(s, mode) {
            ParserStateView { question: Some(q), answer: Seq::empty(), in_fence: s.in_fence }
        } else {
            s
        },
        MarkerLineView::AnswerStart(a) => if eligible(s, mode) && s.question is Some {
            ParserStateView { answer: s.answer + a + seq!['\n'], ..s }
        } else {
            s
        },
        MarkerLineView::FreeText(t) => if eligible(s, mode) && s.question is Some && t.len() > 0 {
            ParserStateView {
                answer: if s.answer.len() > 0 && s.answer.last() != '\n' {
                    s.answer + seq!['\n'] + t
                } else {
                    s.answer + t
                },
                ..s
            }
        } else {
            s
        },
    }
}

/// The card that reading `line` in state `s` completes: a question marker
/// that is looked at closes the draft before it.
pub open spec fn emitted(
    s: ParserStateView,
    line: MarkerLineView,
    mode: ParseMode,
) -> Option<FlashcardView> {
    match line {
        MarkerLineView::QuestionStart(_) => if eligible(s, mode) {
            completed(s)
        } else {
            None
        },
        _ => None,
    }
}

/// The value of a card that may be absent.
pub open spec fn card_view(card: Option<Flashcard>) -> Option<FlashcardView> {
    match card {
        Some(c) => Some(c@),
        None => None,
    }
}

/// The values of a run of cards, in order.
pub open spec fn card_views(cards: Seq<Flashcard>) -> Seq<FlashcardView> {
    cards.map_values(|c: Flashcard| c@)
}

/// A card that may be absent, as a run of no or one card.
pub open spec fn card_seq(card: Option<FlashcardView>) -> Seq<FlashcardView> {
    match card {
        Some(c) => seq![c],
        None => Seq::empty(),
    }
}

/// Where a pass stands after some lines: its state, and the cards completed.
pub ghost struct Progress {
    pub state: ParserStateView,
    pub cards: Seq<FlashcardView>,
}

/// Reads `lines` one after the other, starting in state `s`.
pub open spec fn advance(s: ParserStateView, lines: Seq<Seq<char>>, mode: ParseMode) -> Progress
    decreases lines.len(),
{
    if lines.len() == 0 {
        Progress { state: s, cards: Seq::empty() }
    } else {
        let line = classify(lines[0]);
        let rest = advance(next_state(s, line, mode), lines.drop_first(), mode);
        Progress { state: rest.state, cards: card_seq(emitted(s, line, mode)) + rest.cards }
    }
}

/// The cards of a document given as lines: those completed while reading the
/// lines, then the draft that is left at the end, if it is complete.
pub open spec fn cards_of_lines(lines: Seq<Seq<char>>, mode: ParseMode) -> Seq<FlashcardView> {
    let p = advance(initial_state(), lines, mode);
    p.cards + card_seq(completed(p.state))
}

/// The cards of a text document.
pub open spec fn cards_of_text(text: Seq<char>, mode: ParseMode) -> Seq<FlashcardView> {
    cards_of_lines(split_lines(text), mode)
}

/// No card completed while reading has an empty question, whatever the
/// state in which the reading began.
pub proof fn lemma_completed_questions_not_empty(
    s: ParserStateView,
    lines: Seq<Seq<char>>,
    mode: ParseMode,
)
    ensures
        forall|i: int|
            0 <= i < advance(s, lines, mode).cards.len() ==> (#[trigger] advance(
                s,
                lines,
                mode,
            ).cards[i]).question.len() > 0,
    decreases lines.len(),
{
    if lines.len() > 0 {
        lemma_completed_questions_not_empty(
            next_state(s, classify(lines[0]), mode),
            lines.drop_first(),
            mode,
        );
    }
}

/// No card of a document has an empty question.
pub proof fn lemma_questions_never_empty(lines: Seq<Seq<char>>, mode: ParseMode)
    ensures
        forall|i: int|
            0 <= i < cards_of_lines(lines, mode).len() ==> (#[trigger] cards_of_lines(
                lines,
                mode,
            )[i]).question.len() > 0,
{
    lemma_completed_questions_not_empty(initial_state(), lines, mode);
}

/// The card for a question and the answer text gathered for it, if both are
/// not empty.
fn finished_card(question: String, gathered: &Vec<char>) -> (card: Option<Flashcard>)
    ensures
        card_view(card) == finished(question@, gathered@),
{
    if question.as_str().is_empty() || gathered.len() == 0 {
        return None;
    }
    assert(gathered@.subrange(0, gathered.len() as int) =~= gathered@);
    let (a, b) = trim_bounds(gathered, 0, gathered.len());
    Some(Flashcard { question, answer: string_of(gathered, a, b) })
}

impl ParserState {
    /// The state in which a pass begins.
    pub fn new() -> (s: ParserState)
        ensures
            s@ == initial_state(),
    {
        ParserState { current_question: None, current_answer: Vec::new(), in_code_fence: false }
    }

    /// Reads one classified line. Returns the card that the line completes,
    /// if it completes one.
    pub fn step(&mut self, line: MarkerLine, mode: ParseMode) -> (card: Option<Flashcard>)
        ensures
            final(self)@ == next_state(old(self)@, line@, mode),
            card_view(card) == emitted(old(self)@, line@, mode),
    {
        let looked_at = match mode {
            ParseMode::Unrestricted => true,
            ParseMode::FenceGated => self.in_code_fence,
        };
        match line {
            MarkerLine::FenceToggle => {
                self.in_code_fence = !self.in_code_fence;
                None
            },
            MarkerLine::QuestionStart(question) => {
                if !looked_at {
                    return None;
                }
                let card = match self.current_question.take() {
                    Some(previous) => finished_card(previous, &self.current_answer),
                    None => None,
                };
                self.current_question = Some(question);
                self.current_answer = Vec::new();
                card
            },
            MarkerLine::AnswerStart(text) => {
                if looked_at && self.current_question.is_some() {
                    let mut chars = chars_of(text.as_str());
                    self.current_answer.append(&mut chars);
                    self.current_answer.push('\n');
                    assert(self.current_answer@ =~= old(self).current_answer@ + text@ + seq!['\n']);
                }
                None
            },
            MarkerLine::FreeText(text) => {
                if looked_at && self.current_question.is_some() && !text.as_str().is_empty() {
                    let gathered = self.current_answer.len();
                    let apart = gathered > 0 && self.current_answer[gathered - 1] != '\n';
                    if apart {
                        self.current_answer.push('\n');
                    }
                    let mut chars = chars_of(text.as_str());
                    self.current_answer.append(&mut chars);
                    assert(apart ==> self.current_answer@ =~= old(self).current_answer@ + seq![
                        '\n',
                    ] + text@);
                    assert(!apart ==> self.current_answer@ =~= old(self).current_answer@ + text@);
                }
                None
            },
        }
    }

    /// Ends the pass. Returns the draft that is left, if it is complete.
    pub fn finish(self) -> (card: Option<Flashcard>)
        ensures
            card_view(card) == completed(self@),
    {
        match self.current_question {
            Some(question) => finished_card(question, &self.current_answer),
            None => None,
        }
    }
}

/// Extracts the flashcards of a text document, in the order in which their
/// questions appear. The text is read line by line; malformed marker
/// sequences give fewer cards, never a failure.
pub fn parse_flashcards_from_markdown(text: &str, mode: ParseMode) -> (cards: Vec<Flashcard>)
    ensures
        card_views(cards@) == cards_of_text(text@, mode),
        forall|i: int| 0 <= i < cards.len() ==> (#[trigger] cards[i]).question@.len() > 0,
{
    let chars = chars_of(text);
    let table = marker_table();
    let mut state = ParserState::new();
    let mut cards: Vec<Flashcard> = Vec::new();
    let mut pos: usize = 0;
    let mut done = false;
    let ghost total = advance(initial_state(), split_lines(chars@), mode);
    let ghost mut rest = split_lines(chars@);
    assert(chars@.skip(0) =~= chars@);
    assert(card_views(cards@) =~= Seq::empty());
    while !done
        invariant
            pos <= chars.len(),
            table_view(table@) == markers(),
            !done ==> rest == split_lines(chars@.skip(pos as int)),
            done ==> rest.len() == 0,
            total.state == advance(state@, rest, mode).state,
            total.cards == card_views(cards@) + advance(state@, rest, mode).cards,
        decreases chars.len() - pos + (if done { 0int } else { 1int }),
    {
        let end = line_end(&chars, pos);
        let ghost tail = chars@.skip(pos as int);
        let ghost before = state@;
        let ghost had = card_views(cards@);
        assert(tail.take(end - pos) =~= chars@.subrange(pos as int, end as int));
        let line = classify_chars(&chars, pos, end, &table);
        let card = state.step(line, mode);
        proof {
            if end < chars.len() {
                assert(tail.skip(end - pos + 1) =~= chars@.skip(end + 1));
                assert(rest.drop_first() =~= split_lines(chars@.skip(end + 1)));
            } else {
                assert(tail.take(end - pos) =~= tail);
                assert(rest.drop_first() =~= Seq::<Seq<char>>::empty());
            }
            assert(rest[0] == chars@.subrange(pos as int, end as int));
            assert(advance(before, rest, mode).cards == card_seq(
                emitted(before, classify(rest[0]), mode),
            ) + advance(state@, rest.drop_first(), mode).cards);
        }
        match card {
            Some(c) => {
                cards.push(c);
                assert(card_views(cards@) =~= had + seq![c@]);
            },
            None => {},
        }
        proof {
            rest = rest.drop_first();
        }
        if end < chars.len() {
            pos = end + 1;
        } else {
            done = true;
        }
    }
    let ghost had = card_views(cards@);
    match state.finish() {
        Some(c) => {
            cards.push(c);
            assert(card_views(cards@) =~= had + seq![c@]);
        },
        None => {},
    }
    proof {
        let lines = split_lines(text@);
        assert(card_views(cards@) == cards_of_lines(lines, mode));
        lemma_questions_never_empty(lines, mode);
        assert forall|i: int| 0 <= i < cards.len() implies (#[trigger] cards[i]).question@.len()
            > 0 by {
            assert(cards_of_lines(lines, mode)[i] == cards[i]@);
        }
    }
    cards
}

/// Extracts the flashcards of a document given as blocks: the blocks are
/// rendered to text and the text is parsed.
pub fn extract_flashcards(blocks: &Vec<ContentBlock>, mode: ParseMode) -> (cards: Vec<Flashcard>)
    ensures
        card_views(cards@) == cards_of_text(rendered_blocks(block_views(blocks@)), mode),
        forall|i: int| 0 <= i < cards.len() ==> (#[trigger] cards[i]).question@.len() > 0,
{
    let text = convert_blocks_to_markdown(blocks);
    parse_flashcards_from_markdown(text.as_str(), mode)
}

} // verus!
