use notion_flashcards::block::{BlockKind, ContentBlock, HeadingLevel, InlineTextFragment};
use notion_flashcards::marker::{classify_line, MarkerLine};
use notion_flashcards::parser::{
    extract_flashcards, parse_flashcards_from_markdown, Flashcard, ParseMode, ParserState,
};

fn card(question: &str, answer: &str) -> Flashcard {
    Flashcard { question: question.to_string(), answer: answer.to_string() }
}

fn parse(text: &str) -> Vec<Flashcard> {
    parse_flashcards_from_markdown(text, ParseMode::Unrestricted)
}

fn parse_gated(text: &str) -> Vec<Flashcard> {
    parse_flashcards_from_markdown(text, ParseMode::FenceGated)
}

fn block(kind: BlockKind, text: &str) -> ContentBlock {
    ContentBlock { kind, rich_text: vec![InlineTextFragment { plain_text: text.to_string() }] }
}

const TWO_CARDS: &str = "问题：What is 2+2?\n答案：4\n\n问题：Name a primary color.\n答案：Red\nIt is also a stop-light color.\n";

#[test]
fn two_questions_give_two_cards() {
    let cards = parse(TWO_CARDS);
    assert_eq!(cards.len(), 2);
    assert_eq!(cards[0], card("What is 2+2?", "4"));
    assert_eq!(cards[1].question, "Name a primary color.");
    assert_eq!(cards[1].answer, "Red\nIt is also a stop-light color.");
}

#[test]
fn two_questions_give_two_cards_without_a_final_line_break() {
    let text = "问题：What is 2+2?\n答案：4\n\n问题：Name a primary color.\n答案：Red\nIt is also a stop-light color.";
    assert_eq!(
        parse(text),
        vec![
            card("What is 2+2?", "4"),
            card("Name a primary color.", "Red\nIt is also a stop-light color."),
        ]
    );
}

#[test]
fn two_questions_inside_a_fence_give_the_same_cards_when_gated() {
    let fenced = format!("```\n{}```\n", TWO_CARDS);
    assert_eq!(parse_gated(&fenced), parse(TWO_CARDS));
    assert_eq!(parse_gated(TWO_CARDS), Vec::new());
}

#[test]
fn multi_line_answer_is_assembled() {
    let cards = parse("问题: What is X?\n答案: It is\na value.");
    assert_eq!(cards, vec![card("What is X?", "It is\na value.")]);
}

#[test]
fn multi_line_answer_is_assembled_inside_a_fence() {
    let text = "```\n问题: What is X?\n答案: It is\na value.\n```";
    let expected = vec![card("What is X?", "It is\na value.")];
    assert_eq!(parse_gated(text), expected);
    assert_eq!(parse(text), expected);
}

#[test]
fn answer_lines_are_one_line_break_apart() {
    assert_eq!(parse("问题: Q\n答案: a\nb\nc\n"), vec![card("Q", "a\nb\nc")]);
    assert_eq!(parse("问题: Q\n答案: a\n\n\nb\n"), vec![card("Q", "a\nb")]);
    assert_eq!(parse("问题: Q\n答案:\n答案:\nb\n"), vec![card("Q", "b")]);
    assert_eq!(parse("问题: Q\n答案: a\n答案:\nb\n"), vec![card("Q", "a\n\nb")]);
}

#[test]
fn answer_line_adds_its_text_right_behind_what_is_gathered() {
    assert_eq!(parse("问题: Q\n答案: a\nb\n答案: c\nd\n"), vec![card("Q", "a\nbc\nd")]);
}

#[test]
fn continuation_lines_are_joined_by_one_line_break() {
    let cards = parse("问题: Q\nfirst\nsecond\n\n  third  \n");
    assert_eq!(cards, vec![card("Q", "first\nsecond\nthird")]);
}

#[test]
fn answer_lines_accumulate() {
    assert_eq!(parse("问题: Q\n答案: a\n回答: b\n"), vec![card("Q", "a\nb")]);
}

#[test]
fn inner_whitespace_of_an_answer_is_kept() {
    assert_eq!(parse("Question: Q\nAnswer:   a   b  \n"), vec![card("Q", "a   b")]);
}

#[test]
fn cards_keep_the_order_of_their_questions() {
    let text = "问题: one\n答案: 1\nQuestion: two\nAnswer: 2\n问题：three\n回答：3\n";
    assert_eq!(parse(text), vec![card("one", "1"), card("two", "2"), card("three", "3")]);
}

#[test]
fn card_questions_are_a_selection_of_the_question_lines_in_order() {
    let text = "问题: a\n问题: b\n答案: x\n问题: c\n问题: d\n答案: y\n问题: e\n";
    let questions: Vec<String> = parse(text).into_iter().map(|c| c.question).collect();
    assert_eq!(questions, vec!["b".to_string(), "d".to_string()]);
}

#[test]
fn question_without_answer_is_discarded() {
    assert_eq!(parse("问题: first\n问题: second\n答案: yes\n"), vec![card("second", "yes")]);
    assert_eq!(parse("问题: only\n"), Vec::new());
}

#[test]
fn unanswered_question_reads_as_if_it_were_absent() {
    let with = "问题: a\n答案: 1\n问题: dropped\nQuestion: b\nAnswer: 2\n";
    let without = "问题: a\n答案: 1\nQuestion: b\nAnswer: 2\n";
    assert_eq!(parse(with), parse(without));
    assert_eq!(parse(with), vec![card("a", "1"), card("b", "2")]);
}

#[test]
fn question_outside_a_fence_is_ignored_when_gated() {
    let text = "问题: outside\n```\n答案: inside\n```\n";
    assert_eq!(parse_gated(text), Vec::new());
    assert_eq!(parse(text), vec![card("outside", "inside")]);
}

#[test]
fn line_outside_a_fence_leaves_no_trace_when_gated() {
    let with = "```\n问题: Q\n答案: A\n```\n问题: stray\n答案: stray\n```\nmore\n```\n";
    let without = "```\n问题: Q\n答案: A\n```\n```\nmore\n```\n";
    assert_eq!(parse_gated(with), parse_gated(without));
    assert_eq!(parse_gated(with), vec![card("Q", "A\nmore")]);
}

#[test]
fn gated_mode_reads_only_inside_fences() {
    let text = "问题: A\n答案: a\n```text\n问题: B\n答案: b\n```\n问题: C\n答案: c\n";
    assert_eq!(parse_gated(text), vec![card("B", "b")]);
    assert_eq!(parse(text), vec![card("A", "a"), card("B", "b"), card("C", "c")]);
}

#[test]
fn fence_lines_are_consumed_in_unrestricted_mode() {
    assert_eq!(parse("问题: Q\n```rust\ncode\n```\n"), vec![card("Q", "code")]);
}

#[test]
fn unterminated_fence_still_gives_its_card() {
    assert_eq!(parse_gated("```\n问题: Q\n答案: A"), vec![card("Q", "A")]);
}

#[test]
fn marker_variants_are_interchangeable() {
    let expected = vec![card("What is X?", "Y")];
    for q in ["问题:", "问题：", "Question:", "Question："] {
        for a in ["答案:", "答案：", "Answer:", "Answer：", "回答:", "回答："] {
            let text = format!("{} What is X?\n{} Y\n", q, a);
            assert_eq!(parse(&text), expected, "{} {}", q, a);
            let fenced = format!("```\n{}```", text);
            assert_eq!(parse_gated(&fenced), expected, "{} {}", q, a);
        }
    }
}

#[test]
fn last_card_is_given_at_end_of_document() {
    assert_eq!(parse("问题: Q\n答案: A"), vec![card("Q", "A")]);
    assert_eq!(parse("问题: a\n答案: 1\n问题: b\n答案: 2"), vec![card("a", "1"), card("b", "2")]);
}

#[test]
fn answer_without_open_question_is_ignored() {
    assert_eq!(parse("答案: lonely\n"), Vec::new());
    assert_eq!(parse("答案: lonely\n问题: Q\n答案: A\n"), vec![card("Q", "A")]);
}

#[test]
fn free_text_before_any_question_is_ignored() {
    assert_eq!(parse("# Title\n\nintro\n问题: Q\n答案: A\n"), vec![card("Q", "A")]);
}

#[test]
fn empty_question_is_never_given_out() {
    assert_eq!(parse("问题:\n答案: x\n"), Vec::new());
    assert_eq!(parse("问题:\n答案: x\n问题: real\n答案: y\n"), vec![card("real", "y")]);
}

#[test]
fn no_card_has_an_empty_question() {
    let documents = [
        TWO_CARDS,
        "问题:\n答案:\n",
        "Question:   \nAnswer: a\nQuestion: b\nAnswer: c\nQuestion：\nfree\n",
        "```\n问题:\n答案: 1\n```\n问题: x\n答案: 2\n",
        "",
    ];
    for text in documents {
        for mode in [ParseMode::Unrestricted, ParseMode::FenceGated] {
            for c in parse_flashcards_from_markdown(text, mode) {
                assert!(!c.question.is_empty(), "{:?}", text);
            }
        }
    }
}

#[test]
fn blank_lines_do_not_close_a_question() {
    assert_eq!(parse("问题: Q\n\n   \n答案: A\n\n"), vec![card("Q", "A")]);
    assert_eq!(parse("问题: Q\n答案: A\n\nmore\n"), vec![card("Q", "A\nmore")]);
}

#[test]
fn blank_line_reads_as_if_it_were_absent() {
    assert_eq!(parse("问题: Q\n\nfirst\n \t\nsecond"), parse("问题: Q\nfirst\nsecond"));
}

#[test]
fn answer_marker_alone_counts_as_answer_content() {
    assert_eq!(parse("问题: Q\n答案:\n"), vec![card("Q", "")]);
    assert_eq!(parse("问题: Q\n答案:\nfoo\n"), vec![card("Q", "foo")]);
}

#[test]
fn carriage_returns_are_trimmed_away() {
    assert_eq!(parse("问题: Q\r\n答案: A\r\nmore\r\n"), vec![card("Q", "A\nmore")]);
}

#[test]
fn empty_document_has_no_cards() {
    assert_eq!(parse(""), Vec::new());
    assert_eq!(parse_gated(""), Vec::new());
    assert_eq!(parse("\n\n\n"), Vec::new());
    assert_eq!(parse("just some text\nand more\n"), Vec::new());
}

#[test]
fn state_machine_can_be_driven_line_by_line() {
    let mut state = ParserState::new();
    let mode = ParseMode::Unrestricted;
    assert_eq!(state.step(classify_line("问题: a"), mode), None);
    assert_eq!(state.step(classify_line("答案: 1"), mode), None);
    assert_eq!(state.step(classify_line(""), mode), None);
    assert_eq!(state.step(classify_line("问题: b"), mode), Some(card("a", "1")));
    assert_eq!(state.step(classify_line("问题: c"), mode), None);
    assert_eq!(state.step(classify_line("tail"), mode), None);
    assert_eq!(state.finish(), Some(card("c", "tail")));
}

#[test]
fn fresh_state_finishes_without_a_card() {
    assert_eq!(ParserState::new().finish(), None);
}

#[test]
fn fence_toggle_opens_and_closes_the_gate() {
    let mode = ParseMode::FenceGated;
    let mut state = ParserState::new();
    assert_eq!(state.step(MarkerLine::QuestionStart("out".to_string()), mode), None);
    assert_eq!(state.step(MarkerLine::FenceToggle, mode), None);
    assert_eq!(state.step(MarkerLine::QuestionStart("in".to_string()), mode), None);
    assert_eq!(state.step(MarkerLine::AnswerStart("yes".to_string()), mode), None);
    assert_eq!(state.step(MarkerLine::FenceToggle, mode), None);
    assert_eq!(state.step(MarkerLine::FreeText("ignored".to_string()), mode), None);
    assert_eq!(state.step(MarkerLine::QuestionStart("ignored".to_string()), mode), None);
    assert_eq!(state.finish(), Some(card("in", "yes")));
}

#[test]
fn cards_are_extracted_from_code_blocks_when_gated() {
    let blocks = vec![
        block(BlockKind::Heading(HeadingLevel::One), "Deck"),
        block(BlockKind::Paragraph, "问题: outside"),
        block(BlockKind::CodeBlock { language: "text".to_string() }, "问题: Q1\n答案: A1"),
        block(BlockKind::BulletItem, "答案: outside"),
        block(BlockKind::Other, ""),
        block(BlockKind::CodeBlock { language: String::new() }, "Question: Q2\nAnswer: A2\nmore"),
    ];
    assert_eq!(
        extract_flashcards(&blocks, ParseMode::FenceGated),
        vec![card("Q1", "A1"), card("Q2", "A2\nmore")]
    );
}

#[test]
fn cards_are_extracted_from_any_block_when_unrestricted() {
    let blocks = vec![
        block(BlockKind::Paragraph, "问题: What is 2+2?"),
        block(BlockKind::Paragraph, "答案: 4"),
        block(BlockKind::Paragraph, "Question: Name a primary color."),
        block(BlockKind::Paragraph, "Answer: Red"),
    ];
    assert_eq!(
        extract_flashcards(&blocks, ParseMode::Unrestricted),
        vec![card("What is 2+2?", "4"), card("Name a primary color.", "Red")]
    );
}

#[test]
fn no_blocks_give_no_cards() {
    assert_eq!(extract_flashcards(&Vec::new(), ParseMode::FenceGated), Vec::new());
}
