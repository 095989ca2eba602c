//! Handing finished cards to an import sink, one at a time, and counting
//! the cards that the sink accepted.
//!
//! The emitter decides; its caller does the sending. The caller asks for the
//! pending card, sends it, and reports whether the sink accepted it.

use crate::parser::{card_views, Flashcard, FlashcardView};
use vstd::prelude::*;

verus! {

/// The cards of a run with the position reached in them and the number of
/// cards accepted so far.
pub struct CardEmitter {
    queue: Vec<Flashcard>,
    cursor: usize,
    successes: usize,
}

/// The mathematical value of a [`CardEmitter`].
pub ghost struct EmitterView {
    /// All cards handed to the emitter, in the order in which they came.
    pub cards: Seq<FlashcardView>,
    /// How many of them have been sent, with whatever outcome.
    pub submitted: nat,
    /// How many of those the sink accepted.
    pub successes: nat,
}

/// The card that is to be sent next: the first that has not been sent.
pub open spec fn pending(e: EmitterView) -> Option<FlashcardView> {
    if e.submitted < e.cards.len() {
        Some(e.cards[e.submitted as int])
    } else {
        None
    }
}

/// The emitter after the outcome of sending the pending card. A failure is
/// counted as sent and the run goes on; an outcome that comes while no card is
/// pending changes nothing.
pub open spec fn after_outcome(e: EmitterView, accepted: bool) -> EmitterView {
    if pending(e) is Some {
        EmitterView {
            cards: e.cards,
            submitted: e.submitted + 1,
            successes: if accepted {
                e.successes + 1
            } else {
                e.successes
            },
        }
    } else {
        e
    }
}

/// The emitter after a run of outcomes, one for each card sent.
pub open spec fn after_outcomes(e: EmitterView, outcomes: Seq<bool>) -> EmitterView
    decreases outcomes.len(),
{
    if outcomes.len() == 0 {
        e
    } else {
        after_outcome(after_outcomes(e, outcomes.drop_last()), outcomes.last())
    }
}

/// How many of `outcomes` are acceptances.
pub open spec fn count_accepted(outcomes: Seq<bool>) -> nat
    decreases outcomes.len(),
{
    if outcomes.len() == 0 {
        0
    } else if outcomes.last() {
        count_accepted(outcomes.drop_last()) + 1
    } else {
        count_accepted(outcomes.drop_last())
    }
}

impl CardEmitter {
    /// The count of acceptances is at most the number of cards sent, which
    /// is at most the number of cards there are.
    pub closed spec fn well_formed(&self) -> bool {
        self.successes <= self.cursor <= self.queue.len()
    }

    /// The cards, the position reached and the count of acceptances.
    pub closed spec fn view(&self) -> EmitterView {
        EmitterView {
            cards: card_views(self.queue@),
            submitted: self.cursor as nat,
            successes: self.successes as nat,
        }
    }

    /// An emitter with nothing to send and nothing counted.
    pub fn new() -> (emitter: CardEmitter)
        ensures
            emitter.well_formed(),
            emitter@ == (EmitterView { cards: Seq::empty(), submitted: 0, successes: 0 }),
    {
        let emitter = CardEmitter { queue: Vec::new(), cursor: 0, successes: 0 };
        assert(card_views(emitter.queue@) =~= Seq::empty());
        emitter
    }

    /// Adds the cards of one document behind those already there.
    pub fn enqueue(&mut self, cards: Vec<Flashcard>)
        requires
            old(self).well_formed(),
        ensures
            final(self).well_formed(),
            final(self)@ == (EmitterView {
                cards: old(self)@.cards + card_views(cards@),
                ..old(self)@
            }),
    {
        let mut cards = cards;
        let ghost added = card_views(cards@);
        let ghost before = card_views(self.queue@);
        self.queue.append(&mut cards);
        assert(card_views(self.queue@) =~= before + added);
    }

    /// The card to send next, or `None` when every card has been sent.
    pub fn next_card(&self) -> (card: Option<&Flashcard>)
        requires
            self.well_formed(),
        ensures
            match card {
                Some(c) => pending(self@) == Some(c@),
                None => pending(self@) is None,
            },
    {
        if self.cursor < self.queue.len() {
            Some(&self.queue[self.cursor])
        } else {
            None
        }
    }

    /// Takes note of the outcome of sending the pending card and moves on to
    /// the next card, whether the sink accepted the card or not.
    pub fn record_outcome(&mut self, accepted: bool)
        requires
            old(self).well_formed(),
        ensures
            final(self).well_formed(),
            final(self)@ == after_outcome(old(self)@, accepted),
    {
        if self.cursor < self.queue.len() {
            self.cursor += 1;
            if accepted {
                self.successes += 1;
            }
        }
    }

    /// How many cards the sink has accepted so far.
    pub fn success_count(&self) -> (n: usize)
        ensures
            n == self@.successes,
    {
        self.successes
    }
}

/// While cards are pending, each outcome moves the emitter one card on, in
/// the order of the cards, and the count of successes is the number of
/// acceptances among the outcomes: a failure stops nothing and counts nothing.
pub proof fn lemma_successes_are_counted(e: EmitterView, outcomes: Seq<bool>)
    requires
        e.submitted + outcomes.len() <= e.cards.len(),
    ensures
        after_outcomes(e, outcomes).cards == e.cards,
        after_outcomes(e, outcomes).submitted == e.submitted + outcomes.len(),
        after_outcomes(e, outcomes).successes == e.successes + count_accepted(outcomes),
    decreases outcomes.len(),
{
    if outcomes.len() > 0 {
        lemma_successes_are_counted(e, outcomes.drop_last());
    }
}

} // verus!
