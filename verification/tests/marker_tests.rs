use notion_flashcards::marker::{
    classify_chars, classify_line, marker_table, MarkerKind, MarkerLine,
};
use notion_flashcards::text::chars_of;

fn question(text: &str) -> MarkerLine {
    MarkerLine::QuestionStart(text.to_string())
}

fn answer(text: &str) -> MarkerLine {
    MarkerLine::AnswerStart(text.to_string())
}

fn free(text: &str) -> MarkerLine {
    MarkerLine::FreeText(text.to_string())
}

#[test]
fn marker_table_lists_questions_then_answers_then_fence() {
    let table = marker_table();
    let expected = vec![
        ("问题:", MarkerKind::Question),
        ("问题：", MarkerKind::Question),
        ("Question:", MarkerKind::Question),
        ("Question：", MarkerKind::Question),
        ("答案:", MarkerKind::Answer),
        ("答案：", MarkerKind::Answer),
        ("Answer:", MarkerKind::Answer),
        ("Answer：", MarkerKind::Answer),
        ("回答:", MarkerKind::Answer),
        ("回答：", MarkerKind::Answer),
        ("```", MarkerKind::Fence),
    ];
    assert_eq!(table, expected);
}

#[test]
fn every_question_marker_opens_a_question() {
    for marker in ["问题:", "问题：", "Question:", "Question："] {
        let line = format!("{} What is X?", marker);
        assert_eq!(classify_line(&line), question("What is X?"), "{}", marker);
    }
}

#[test]
fn every_answer_marker_opens_an_answer() {
    for marker in ["答案:", "答案：", "Answer:", "Answer：", "回答:", "回答："] {
        let line = format!("{}It is Y.", marker);
        assert_eq!(classify_line(&line), answer("It is Y."), "{}", marker);
    }
}

#[test]
fn line_is_trimmed_before_it_is_classified() {
    assert_eq!(classify_line("   问题: spaced out \t"), question("spaced out"));
    assert_eq!(classify_line("\u{3000}Answer：  wide  \r"), answer("wide"));
    assert_eq!(classify_line("  plain text  "), free("plain text"));
}

#[test]
fn markers_are_case_sensitive() {
    assert_eq!(classify_line("question: x"), free("question: x"));
    assert_eq!(classify_line("QUESTION: x"), free("QUESTION: x"));
    assert_eq!(classify_line("answer: x"), free("answer: x"));
}

#[test]
fn marker_must_stand_at_the_start() {
    assert_eq!(classify_line("The Question: x"), free("The Question: x"));
    assert_eq!(classify_line("Question : x"), free("Question : x"));
    assert_eq!(classify_line("Question"), free("Question"));
}

#[test]
fn marker_alone_has_empty_text() {
    assert_eq!(classify_line("问题:"), question(""));
    assert_eq!(classify_line("Answer:   "), answer(""));
}

#[test]
fn marker_is_removed_once() {
    assert_eq!(classify_line("Question:Question: x"), question("Question: x"));
    assert_eq!(classify_line("问题:Answer: x"), question("Answer: x"));
    assert_eq!(classify_line("答案: 问题: x"), answer("问题: x"));
}

#[test]
fn fence_line_toggles_with_or_without_language() {
    assert_eq!(classify_line("```"), MarkerLine::FenceToggle);
    assert_eq!(classify_line("```rust"), MarkerLine::FenceToggle);
    assert_eq!(classify_line("   ``` text  "), MarkerLine::FenceToggle);
    assert_eq!(classify_line("````"), MarkerLine::FenceToggle);
}

#[test]
fn two_backticks_are_no_fence() {
    assert_eq!(classify_line("``"), free("``"));
    assert_eq!(classify_line("`` `"), free("`` `"));
    assert_eq!(classify_line("x```"), free("x```"));
}

#[test]
fn blank_line_is_empty_free_text() {
    assert_eq!(classify_line(""), free(""));
    assert_eq!(classify_line("  \t "), free(""));
}

#[test]
fn first_matching_entry_of_a_table_decides() {
    let table = vec![
        ("Q>", MarkerKind::Question),
        ("Q", MarkerKind::Answer),
        ("~~~", MarkerKind::Fence),
    ];
    let chars = chars_of("xx  Q> what?  yy");
    assert_eq!(classify_chars(&chars, 2, 14, &table), question("what?"));
    assert_eq!(classify_chars(&chars, 4, 5, &table), answer(""));
    assert_eq!(classify_chars(&chars, 0, chars.len(), &table), free("xx  Q> what?  yy"));
    let fence = chars_of("~~~ 问题: x");
    assert_eq!(classify_chars(&fence, 0, fence.len(), &table), MarkerLine::FenceToggle);
    assert_eq!(classify_chars(&fence, 4, fence.len(), &table), free("问题: x"));
    assert_eq!(classify_chars(&fence, 4, fence.len(), &marker_table()), question("x"));
}
