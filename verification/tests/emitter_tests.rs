use notion_flashcards::emitter::CardEmitter;
use notion_flashcards::parser::Flashcard;

fn card(question: &str, answer: &str) -> Flashcard {
    Flashcard { question: question.to_string(), answer: answer.to_string() }
}

fn three_cards() -> Vec<Flashcard> {
    vec![card("a", "1"), card("b", "2"), card("c", "3")]
}

#[test]
fn new_emitter_has_nothing_to_send() {
    let emitter = CardEmitter::new();
    assert_eq!(emitter.next_card(), None);
    assert_eq!(emitter.success_count(), 0);
}

#[test]
fn cards_are_sent_in_order_one_at_a_time() {
    let mut emitter = CardEmitter::new();
    emitter.enqueue(three_cards());
    let mut sent = Vec::new();
    while let Some(c) = emitter.next_card() {
        sent.push(c.clone());
        emitter.record_outcome(true);
    }
    assert_eq!(sent, three_cards());
    assert_eq!(emitter.success_count(), 3);
}

#[test]
fn pending_card_stays_until_its_outcome_is_recorded() {
    let mut emitter = CardEmitter::new();
    emitter.enqueue(three_cards());
    assert_eq!(emitter.next_card(), Some(&card("a", "1")));
    assert_eq!(emitter.next_card(), Some(&card("a", "1")));
    emitter.record_outcome(false);
    assert_eq!(emitter.next_card(), Some(&card("b", "2")));
}

#[test]
fn failure_is_counted_as_sent_and_the_run_goes_on() {
    let mut emitter = CardEmitter::new();
    emitter.enqueue(three_cards());
    emitter.record_outcome(true);
    emitter.record_outcome(false);
    assert_eq!(emitter.next_card(), Some(&card("c", "3")));
    emitter.record_outcome(true);
    assert_eq!(emitter.next_card(), None);
    assert_eq!(emitter.success_count(), 2);
}

#[test]
fn all_failures_count_nothing() {
    let mut emitter = CardEmitter::new();
    emitter.enqueue(three_cards());
    while emitter.next_card().is_some() {
        emitter.record_outcome(false);
    }
    assert_eq!(emitter.success_count(), 0);
}

#[test]
fn outcome_without_a_pending_card_changes_nothing() {
    let mut emitter = CardEmitter::new();
    emitter.record_outcome(true);
    assert_eq!(emitter.success_count(), 0);
    emitter.enqueue(vec![card("a", "1")]);
    assert_eq!(emitter.next_card(), Some(&card("a", "1")));
    emitter.record_outcome(true);
    emitter.record_outcome(true);
    assert_eq!(emitter.success_count(), 1);
}

#[test]
fn count_runs_on_across_documents() {
    let mut emitter = CardEmitter::new();
    emitter.enqueue(vec![card("a", "1"), card("b", "2")]);
    emitter.record_outcome(true);
    emitter.record_outcome(false);
    assert_eq!(emitter.next_card(), None);
    emitter.enqueue(Vec::new());
    assert_eq!(emitter.next_card(), None);
    emitter.enqueue(vec![card("c", "3")]);
    assert_eq!(emitter.next_card(), Some(&card("c", "3")));
    emitter.record_outcome(true);
    assert_eq!(emitter.success_count(), 2);
}
