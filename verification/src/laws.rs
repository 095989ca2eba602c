//! What holds of every document: the laws of the parser, proved from its
//! definition.

use crate::marker::{classify, markers, match_marker, MarkerKind, MarkerLineView};
use crate::parser::{
    advance, card_seq, cards_of_lines, completed, eligible, emitted, initial_state, next_state,
    FlashcardView, ParseMode, ParserStateView, Progress,
};
use crate::text::{has_prefix, is_space, lemma_trim_shape, trim, trim_end, trim_start};
use vstd::prelude::*;

verus! {

/// Reading `a` and then `b` is reading `a + b`.
pub proof fn lemma_advance_concat(
    s: ParserStateView,
    a: Seq<Seq<char>>,
    b: Seq<Seq<char>>,
    mode: ParseMode,
)
    ensures
        advance(s, a + b, mode).state == advance(advance(s, a, mode).state, b, mode).state,
        advance(s, a + b, mode).cards == advance(s, a, mode).cards + advance(
            advance(s, a, mode).state,
            b,
            mode,
        ).cards,
    decreases a.len(),
{
    if a.len() == 0 {
        assert(a + b =~= b);
    } else {
        let s1 = next_state(s, classify(a[0]), mode);
        assert((a + b).drop_first() =~= a.drop_first() + b);
        assert((a + b)[0] == a[0]);
        lemma_advance_concat(s1, a.drop_first(), b, mode);
    }
}

/// Whether a fence is open after `lines`, given whether one was open before.
pub open spec fn fence_open_after(open: bool, lines: Seq<Seq<char>>) -> bool
    decreases lines.len(),
{
    if lines.len() == 0 {
        open
    } else {
        fence_open_after(
            if classify(lines[0]) is FenceToggle {
                !open
            } else {
                open
            },
            lines.drop_first(),
        )
    }
}

/// Whether the line that follows `lines` lies inside a fenced region: whether
/// `lines` holds an odd number of fence lines.
pub open spec fn inside_fence(lines: Seq<Seq<char>>) -> bool {
    fence_open_after(false, lines)
}

/// The parser's fence flag follows the fence lines and nothing else.
pub proof fn lemma_fence_state(s: ParserStateView, lines: Seq<Seq<char>>, mode: ParseMode)
    ensures
        advance(s, lines, mode).state.in_fence == fence_open_after(s.in_fence, lines),
    decreases lines.len(),
{
    if lines.len() > 0 {
        lemma_fence_state(next_state(s, classify(lines[0]), mode), lines.drop_first(), mode);
    }
}

/// A question that is followed at once by another question gives no card:
/// the document reads as if the first of the two lines were not there.
pub proof fn lemma_unanswered_question_dropped(
    pre: Seq<Seq<char>>,
    first: Seq<char>,
    second: Seq<char>,
    post: Seq<Seq<char>>,
    mode: ParseMode,
)
    requires
        classify(first) is QuestionStart,
        classify(second) is QuestionStart,
    ensures
        cards_of_lines(pre + seq![first, second] + post, mode) == cards_of_lines(
            pre + seq![second] + post,
            mode,
        ),
{
    let s0 = initial_state();
    let s = advance(s0, pre, mode).state;
    let with_both = seq![first, second] + post;
    let with_one = seq![second] + post;
    assert(pre + seq![first, second] + post =~= pre + with_both);
    assert(pre + seq![second] + post =~= pre + with_one);
    lemma_advance_concat(s0, pre, with_both, mode);
    lemma_advance_concat(s0, pre, with_one, mode);
    let s1 = next_state(s, classify(first), mode);
    assert(with_both.drop_first() =~= with_one);
    assert(with_both[0] == first);
    assert(with_one[0] == second);
    assert(with_one.drop_first() =~= post);
    assert(emitted(s1, classify(second), mode) == if eligible(s, mode) {
        None::<FlashcardView>
    } else {
        emitted(s, classify(second), mode)
    });
    let s2 = next_state(s, classify(second), mode);
    assert(next_state(s1, classify(second), mode) == s2);
    assert(advance(s, with_both, mode).cards == card_seq(emitted(s, classify(first), mode))
        + advance(s1, with_one, mode).cards);
    assert(advance(s1, with_one, mode).cards == card_seq(emitted(s1, classify(second), mode))
        + advance(s2, post, mode).cards);
    assert(advance(s, with_one, mode).cards == card_seq(emitted(s, classify(second), mode))
        + advance(s2, post, mode).cards);
    assert(advance(s, with_both, mode).cards =~= advance(s, with_one, mode).cards);
}

/// With fence gating, a line outside any fence that is not itself a fence
/// line leaves no trace, whatever it holds and whatever follows it.
pub proof fn lemma_outside_fence_ignored(
    pre: Seq<Seq<char>>,
    line: Seq<char>,
    post: Seq<Seq<char>>,
)
    requires
        !inside_fence(pre),
        !(classify(line) is FenceToggle),
    ensures
        cards_of_lines(pre + seq![line] + post, ParseMode::FenceGated) == cards_of_lines(
            pre + post,
            ParseMode::FenceGated,
        ),
{
    let mode = ParseMode::FenceGated;
    let s0 = initial_state();
    let s = advance(s0, pre, mode).state;
    let tail = seq![line] + post;
    assert(pre + seq![line] + post =~= pre + tail);
    lemma_advance_concat(s0, pre, tail, mode);
    lemma_advance_concat(s0, pre, post, mode);
    lemma_fence_state(s0, pre, mode);
    assert(tail[0] == line);
    assert(tail.drop_first() =~= post);
    assert(next_state(s, classify(line), mode) == s);
    assert(advance(s, tail, mode).cards =~= advance(s, post, mode).cards);
}

/// A document that ends with an answer line, with nothing behind it, still
/// gives the card of the question that is open there.
pub proof fn lemma_final_answer_flushed(
    pre: Seq<Seq<char>>,
    line: Seq<char>,
    question: Seq<char>,
    answer: Seq<char>,
    mode: ParseMode,
)
    requires
        advance(initial_state(), pre, mode).state.question == Some(question),
        question.len() > 0,
        eligible(advance(initial_state(), pre, mode).state, mode),
        classify(line) == MarkerLineView::AnswerStart(answer),
    ensures
        cards_of_lines(pre + seq![line], mode) == advance(initial_state(), pre, mode).cards.push(
            FlashcardView {
                question,
                answer: trim(
                    advance(initial_state(), pre, mode).state.answer + answer + seq!['\n'],
                ),
            },
        ),
{
    let s0 = initial_state();
    let s = advance(s0, pre, mode).state;
    let last = seq![line];
    lemma_advance_concat(s0, pre, last, mode);
    assert(last[0] == line);
    assert(last.drop_first() =~= Seq::<Seq<char>>::empty());
    let s1 = next_state(s, classify(line), mode);
    assert(advance(s1, last.drop_first(), mode) == Progress {
        state: s1,
        cards: Seq::<FlashcardView>::empty(),
    });
    assert(advance(s, last, mode).state == s1);
    assert(advance(s, last, mode).cards =~= Seq::<FlashcardView>::empty());
    assert(s1.answer.len() > 0);
    assert(cards_of_lines(pre + last, mode) =~= advance(s0, pre, mode).cards.push(
        completed(s1)->0,
    ));
}

/// The text of a question line, as a run of one; empty for any other line.
pub open spec fn question_text(line: MarkerLineView) -> Seq<Seq<char>> {
    match line {
        MarkerLineView::QuestionStart(q) => seq![q],
        _ => Seq::empty(),
    }
}

/// The texts of the question lines among `lines`, in order.
pub open spec fn question_texts(lines: Seq<Seq<char>>) -> Seq<Seq<char>>
    decreases lines.len(),
{
    if lines.len() == 0 {
        Seq::empty()
    } else {
        question_text(classify(lines[0])) + question_texts(lines.drop_first())
    }
}

/// The texts of the question lines among `lines` that the mode looks at, in
/// order: all of them where every line is read, and with fence gating those
/// inside a fenced region. `open` says whether a fence is open before `lines`.
pub open spec fn read_question_texts(
    open: bool,
    lines: Seq<Seq<char>>,
    mode: ParseMode,
) -> Seq<Seq<char>>
    decreases lines.len(),
{
    if lines.len() == 0 {
        Seq::empty()
    } else {
        let line = classify(lines[0]);
        let here = if mode == ParseMode::Unrestricted || open {
            question_text(line)
        } else {
            Seq::empty()
        };
        let open_next = if line is FenceToggle {
            !open
        } else {
            open
        };
        here + read_question_texts(open_next, lines.drop_first(), mode)
    }
}

/// The questions of a run of cards, in order.
pub open spec fn card_questions(cards: Seq<FlashcardView>) -> Seq<Seq<char>> {
    cards.map_values(|c: FlashcardView| c.question)
}

/// Whether `a` can be had from `b` by leaving items out, the order kept.
pub open spec fn is_subsequence(a: Seq<Seq<char>>, b: Seq<Seq<char>>) -> bool
    decreases b.len(),
{
    if a.len() == 0 {
        true
    } else if b.len() == 0 {
        false
    } else {
        (a[0] == b[0] && is_subsequence(a.drop_first(), b.drop_first())) || is_subsequence(
            a,
            b.drop_first(),
        )
    }
}

/// A selection stays one when an item is put in front of what it was taken
/// from, and when the same item is put in front of both.
proof fn lemma_subsequence_prepend(a: Seq<Seq<char>>, x: Seq<char>, b: Seq<Seq<char>>)
    requires
        is_subsequence(a, b),
    ensures
        is_subsequence(a, seq![x] + b),
        is_subsequence(seq![x] + a, seq![x] + b),
{
    assert((seq![x] + b).drop_first() =~= b);
    assert((seq![x] + a).drop_first() =~= a);
}

/// The question that is open in `s`, as a run of one; empty where none is.
pub open spec fn open_question(s: ParserStateView) -> Seq<Seq<char>> {
    match s.question {
        Some(q) => seq![q],
        None => Seq::empty(),
    }
}

/// From any state on, the questions of the cards that follow are a selection
/// of the open question and the question lines that follow and are looked at.
proof fn lemma_order_from(s: ParserStateView, lines: Seq<Seq<char>>, mode: ParseMode)
    ensures
        is_subsequence(
            card_questions(
                advance(s, lines, mode).cards + card_seq(completed(advance(s, lines, mode).state)),
            ),
            open_question(s) + read_question_texts(s.in_fence, lines, mode),
        ),
    decreases lines.len(),
{
    let p = advance(s, lines, mode);
    let all = p.cards + card_seq(completed(p.state));
    let read = read_question_texts(s.in_fence, lines, mode);
    let target = open_question(s) + read;
    if lines.len() == 0 {
        assert(target =~= open_question(s));
        assert(all =~= card_seq(completed(s)));
        if completed(s) is Some {
            assert(card_questions(all) =~= open_question(s));
            assert(card_questions(all).drop_first() =~= Seq::<Seq<char>>::empty());
            assert(is_subsequence(card_questions(all).drop_first(), target.drop_first()));
        } else {
            assert(card_questions(all) =~= Seq::<Seq<char>>::empty());
        }
    } else {
        let line = classify(lines[0]);
        let s1 = next_state(s, line, mode);
        let rest = lines.drop_first();
        let later = advance(s1, rest, mode);
        let later_cards = later.cards + card_seq(completed(later.state));
        let later_read = read_question_texts(s1.in_fence, rest, mode);
        lemma_order_from(s1, rest, mode);
        assert(all =~= card_seq(emitted(s, line, mode)) + later_cards);
        if line is QuestionStart && eligible(s, mode) {
            let q = line->QuestionStart_0;
            assert(open_question(s1) + later_read =~= seq![q] + later_read);
            assert(read =~= seq![q] + later_read);
            if completed(s) is Some {
                let x = s.question->0;
                assert(card_questions(all) =~= seq![x] + card_questions(later_cards));
                assert(target =~= seq![x] + read);
                lemma_subsequence_prepend(card_questions(later_cards), x, read);
            } else {
                assert(card_questions(all) =~= card_questions(later_cards));
                if s.question is Some {
                    assert(target =~= seq![s.question->0] + read);
                    lemma_subsequence_prepend(card_questions(later_cards), s.question->0, read);
                } else {
                    assert(target =~= read);
                }
            }
        } else {
            assert(all =~= later_cards);
            assert(read =~= later_read);
            assert(open_question(s1) == open_question(s));
        }
    }
}

/// The questions of the cards of a document stand in the order of the
/// question lines they come from: they are had from the question lines that
/// the mode looks at by leaving some out. A question line that fence gating
/// passes over gives no card.
pub proof fn lemma_questions_in_document_order(lines: Seq<Seq<char>>, mode: ParseMode)
    ensures
        is_subsequence(
            card_questions(cards_of_lines(lines, mode)),
            read_question_texts(false, lines, mode),
        ),
{
    lemma_order_from(initial_state(), lines, mode);
    let read = read_question_texts(false, lines, mode);
    assert(open_question(initial_state()) + read =~= read);
}

/// Where every line is read, the question lines that are looked at are all
/// the question lines of the document.
pub proof fn lemma_unrestricted_reads_every_question(open: bool, lines: Seq<Seq<char>>)
    ensures
        read_question_texts(open, lines, ParseMode::Unrestricted) == question_texts(lines),
    decreases lines.len(),
{
    if lines.len() > 0 {
        let open_next = if classify(lines[0]) is FenceToggle {
            !open
        } else {
            open
        };
        lemma_unrestricted_reads_every_question(open_next, lines.drop_first());
    }
}

/// The lines of an answer are one line break apart: a question line, an
/// answer line and a free line, where they are looked at and none of the three
/// texts is empty, give a card whose answer is the text of the answer line, one
/// line break, and the free line.
pub proof fn lemma_answer_lines_one_break_apart(
    pre: Seq<Seq<char>>,
    question_line: Seq<char>,
    answer_line: Seq<char>,
    free_line: Seq<char>,
    question: Seq<char>,
    answer: Seq<char>,
    more: Seq<char>,
    mode: ParseMode,
)
    requires
        eligible(advance(initial_state(), pre, mode).state, mode),
        classify(question_line) == MarkerLineView::QuestionStart(question),
        classify(answer_line) == MarkerLineView::AnswerStart(answer),
        classify(free_line) == MarkerLineView::FreeText(more),
        question.len() > 0,
        answer.len() > 0,
        more.len() > 0,
    ensures
        cards_of_lines(pre + seq![question_line, answer_line, free_line], mode) == advance(
            initial_state(),
            pre,
            mode,
        ).cards + card_seq(completed(advance(initial_state(), pre, mode).state)) + seq![
            FlashcardView { question, answer: answer + seq!['\n'] + more },
        ],
{
    let s0 = initial_state();
    let before = advance(s0, pre, mode);
    let s = before.state;
    let three = seq![question_line, answer_line, free_line];
    let two = seq![answer_line, free_line];
    let one = seq![free_line];
    lemma_advance_concat(s0, pre, three, mode);
    let s1 = next_state(s, classify(question_line), mode);
    let s2 = next_state(s1, classify(answer_line), mode);
    let s3 = next_state(s2, classify(free_line), mode);
    assert(three.drop_first() =~= two);
    assert(two.drop_first() =~= one);
    assert(one.drop_first() =~= Seq::<Seq<char>>::empty());
    assert(advance(s3, one.drop_first(), mode) == Progress {
        state: s3,
        cards: Seq::<FlashcardView>::empty(),
    });
    assert(advance(s2, one, mode).state == s3);
    assert(advance(s2, one, mode).cards =~= Seq::<FlashcardView>::empty());
    assert(advance(s1, two, mode).state == s3);
    assert(advance(s1, two, mode).cards =~= Seq::<FlashcardView>::empty());
    assert(advance(s, three, mode).state == s3);
    assert(advance(s, three, mode).cards =~= card_seq(completed(s)));
    let gathered = answer + seq!['\n'] + more;
    assert(s2.answer =~= answer + seq!['\n']);
    assert(s2.answer.last() == '\n');
    assert(s3.answer =~= gathered);
    assert(trim(gathered) == gathered) by {
        let found = match_marker(trim(answer_line), markers(), 0);
        let matched = found->0;
        let behind = matched.1;
        assert(answer == trim(behind));
        lemma_trim_shape(behind);
        assert(!is_space(answer[0]));
        assert(more == trim(free_line));
        lemma_trim_shape(free_line);
        assert(!is_space(more.last()));
        assert(gathered[0] == answer[0]);
        assert(gathered.last() == more.last());
    }
    assert(completed(s3) == Some(FlashcardView { question, answer: gathered }));
}

/// Whether `m` is one of the recognised markers of the given kind.
pub open spec fn is_marker(m: Seq<char>, kind: MarkerKind) -> bool {
    exists|i: int| 0 <= i < markers().len() && #[trigger] markers()[i] == (m, kind)
}

/// Where two different markers of the table part: at their first character
/// where they are different words, at their colon where they are one word.
pub open spec fn parting_index(i: int, j: int) -> int {
    if i / 2 == j / 2 {
        markers()[i].0.len() - 1
    } else {
        0
    }
}

/// The shape of the table: no marker begins or ends with whitespace, and any
/// two of them part at a position that both have.
proof fn lemma_marker_shapes()
    ensures
        markers().len() == 11,
        forall|i: int|
            0 <= i < 11 ==> {
                let m = #[trigger] markers()[i].0;
                m.len() > 0 && !is_space(m[0]) && !is_space(m.last())
            },
        forall|i: int, j: int|
            0 <= i < 11 && 0 <= j < 11 && i != j ==> {
                let k = #[trigger] parting_index(i, j);
                0 <= k < markers()[i].0.len() && k < markers()[j].0.len() && markers()[i].0[k]
                    != markers()[j].0[k]
            },
{
    reveal_strlit("问题:");
    reveal_strlit("问题：");
    reveal_strlit("Question:");
    reveal_strlit("Question：");
    reveal_strlit("答案:");
    reveal_strlit("答案：");
    reveal_strlit("Answer:");
    reveal_strlit("Answer：");
    reveal_strlit("回答:");
    reveal_strlit("回答：");
    reveal_strlit("```");
}

/// The table is free of prefixes: a text that begins with one marker begins
/// with no other. So the marker that a text begins with is found from
/// wherever before it the search starts, and the order in which the markers
/// are tried decides nothing.
pub proof fn lemma_only_match(t: Seq<char>, i: int, from: int)
    requires
        0 <= from <= i < markers().len(),
        has_prefix(t, markers()[i].0),
    ensures
        match_marker(t, markers(), from) == Some(
            (markers()[i].1, t.skip(markers()[i].0.len() as int)),
        ),
    decreases i - from,
{
    lemma_marker_shapes();
    if from < i {
        let k = parting_index(i, from);
        let mi = markers()[i].0;
        let mf = markers()[from].0;
        assert(t.take(mi.len() as int)[k] == mi[k]);
        if has_prefix(t, mf) {
            assert(t.take(mf.len() as int)[k] == mf[k]);
        }
        lemma_only_match(t, i, from + 1);
    }
}

/// Trailing whitespace is taken from behind a text that ends without it.
proof fn lemma_trim_end_after(m: Seq<char>, rest: Seq<char>)
    requires
        m.len() > 0,
        !is_space(m.last()),
    ensures
        trim_end(m + rest) == m + trim_end(rest),
    decreases rest.len(),
{
    if rest.len() > 0 && is_space(rest.last()) {
        assert((m + rest).drop_last() =~= m + rest.drop_last());
        lemma_trim_end_after(m, rest.drop_last());
    } else if rest.len() == 0 {
        assert(m + rest =~= m);
    }
}

/// What `trim_start` gives of a text with one more character at its end.
proof fn lemma_trim_start_push(y: Seq<char>, c: char)
    ensures
        trim_start(y.push(c)) == if trim_start(y).len() == 0 && is_space(c) {
            Seq::<char>::empty()
        } else {
            trim_start(y).push(c)
        },
    decreases y.len(),
{
    if y.len() == 0 {
        assert(y.push(c).drop_first() =~= y);
        assert(trim_start(y) =~= Seq::<char>::empty());
        if !is_space(c) {
            assert(trim_start(y).push(c) =~= y.push(c));
        }
    } else if is_space(y[0]) {
        assert(y.push(c).drop_first() =~= y.drop_first().push(c));
        lemma_trim_start_push(y.drop_first(), c);
    }
}

/// Trimming is not changed by taking trailing whitespace away first.
proof fn lemma_trim_of_trim_end(x: Seq<char>)
    ensures
        trim(trim_end(x)) == trim(x),
    decreases x.len(),
{
    if x.len() > 0 && is_space(x.last()) {
        let y = x.drop_last();
        lemma_trim_of_trim_end(y);
        assert(y.push(x.last()) =~= x);
        lemma_trim_start_push(y, x.last());
        if trim_start(y).len() > 0 {
            assert(trim_start(y).push(x.last()).drop_last() =~= trim_start(y));
        }
    }
}

/// A line without anything but whitespace matches no marker: it is free text
/// and empty.
pub proof fn lemma_blank_line_class(line: Seq<char>)
    requires
        trim(line).len() == 0,
    ensures
        classify(line) == MarkerLineView::FreeText(Seq::empty()),
{
    let t = trim(line);
    assert(t =~= Seq::<char>::empty());
    lemma_no_match_in_blank(t, 0);
}

/// The empty text begins with no marker.
proof fn lemma_no_match_in_blank(t: Seq<char>, from: int)
    requires
        t.len() == 0,
        0 <= from <= markers().len(),
    ensures
        match_marker(t, markers(), from) is None,
    decreases markers().len() - from,
{
    lemma_marker_shapes();
    if from < markers().len() {
        lemma_no_match_in_blank(t, from + 1);
    }
}

/// A blank line changes nothing: it is not added to an answer and does not
/// close a question. The document reads as if the line were not there.
pub proof fn lemma_blank_line_ignored(
    pre: Seq<Seq<char>>,
    line: Seq<char>,
    post: Seq<Seq<char>>,
    mode: ParseMode,
)
    requires
        trim(line).len() == 0,
    ensures
        cards_of_lines(pre + seq![line] + post, mode) == cards_of_lines(pre + post, mode),
{
    lemma_blank_line_class(line);
    let s0 = initial_state();
    let s = advance(s0, pre, mode).state;
    let tail = seq![line] + post;
    assert(pre + seq![line] + post =~= pre + tail);
    lemma_advance_concat(s0, pre, tail, mode);
    lemma_advance_concat(s0, pre, post, mode);
    assert(tail[0] == line);
    assert(tail.drop_first() =~= post);
    assert(next_state(s, classify(line), mode) == s);
    assert(advance(s, tail, mode).cards =~= advance(s, post, mode).cards);
}

/// A line that consists of the `i`-th marker and `rest` is classified by
/// that marker, with `rest` trimmed as its text.
proof fn lemma_marked_line(i: int, rest: Seq<char>)
    requires
        0 <= i < markers().len(),
    ensures
        classify(markers()[i].0 + rest) == match markers()[i].1 {
            MarkerKind::Question => MarkerLineView::QuestionStart(trim(rest)),
            MarkerKind::Answer => MarkerLineView::AnswerStart(trim(rest)),
            MarkerKind::Fence => MarkerLineView::FenceToggle,
        },
{
    lemma_marker_shapes();
    let m = markers()[i].0;
    let line = m + rest;
    assert(trim_start(line) == line);
    lemma_trim_end_after(m, rest);
    let t = m + trim_end(rest);
    assert(t.take(m.len() as int) =~= m);
    assert(t.skip(m.len() as int) =~= trim_end(rest));
    lemma_only_match(t, i, 0);
    lemma_trim_of_trim_end(rest);
}

/// A line that begins with a question marker is a question line, and its
/// text is what follows the marker, trimmed: whichever of the question
/// markers it is.
pub proof fn lemma_question_marker_line(m: Seq<char>, rest: Seq<char>)
    requires
        is_marker(m, MarkerKind::Question),
    ensures
        classify(m + rest) == MarkerLineView::QuestionStart(trim(rest)),
{
    let kind = MarkerKind::Question;
    let i = choose|i: int| 0 <= i < markers().len() && #[trigger] markers()[i] == (m, kind);
    lemma_marked_line(i, rest);
}

/// A line that begins with an answer marker is an answer line, and its text
/// is what follows the marker, trimmed: whichever of the answer markers it is.
pub proof fn lemma_answer_marker_line(m: Seq<char>, rest: Seq<char>)
    requires
        is_marker(m, MarkerKind::Answer),
    ensures
        classify(m + rest) == MarkerLineView::AnswerStart(trim(rest)),
{
    let kind = MarkerKind::Answer;
    let i = choose|i: int| 0 <= i < markers().len() && #[trigger] markers()[i] == (m, kind);
    lemma_marked_line(i, rest);
}

/// Markers of one kind are interchangeable: two lines that differ only in
/// which marker of that kind they begin with are classified alike.
pub proof fn lemma_marker_variants_interchangeable(
    m1: Seq<char>,
    m2: Seq<char>,
    kind: MarkerKind,
    rest: Seq<char>,
)
    requires
        is_marker(m1, kind),
        is_marker(m2, kind),
    ensures
        classify(m1 + rest) == classify(m2 + rest),
{
    let i = choose|i: int| 0 <= i < markers().len() && #[trigger] markers()[i] == (m1, kind);
    let j = choose|j: int| 0 <= j < markers().len() && #[trigger] markers()[j] == (m2, kind);
    lemma_marked_line(i, rest);
    lemma_marked_line(j, rest);
}

/// Only the class of a line counts: a document keeps its cards when one of
/// its lines gives way to another of the same class.
pub proof fn lemma_same_class_same_cards(
    pre: Seq<Seq<char>>,
    a: Seq<char>,
    b: Seq<char>,
    post: Seq<Seq<char>>,
    mode: ParseMode,
)
    requires
        classify(a) == classify(b),
    ensures
        cards_of_lines(pre + seq![a] + post, mode) == cards_of_lines(pre + seq![b] + post, mode),
{
    let s0 = initial_state();
    let s = advance(s0, pre, mode).state;
    let with_a = seq![a] + post;
    let with_b = seq![b] + post;
    assert(pre + seq![a] + post =~= pre + with_a);
    assert(pre + seq![b] + post =~= pre + with_b);
    lemma_advance_concat(s0, pre, with_a, mode);
    lemma_advance_concat(s0, pre, with_b, mode);
    assert(with_a.drop_first() =~= post);
    assert(with_b.drop_first() =~= post);
    assert(with_a[0] == a);
    assert(with_b[0] == b);
    assert(advance(s, with_a, mode) == advance(s, with_b, mode));
}

/// A document keeps its cards when the marker that one of its lines begins
/// with gives way to another marker of the same kind.
pub proof fn lemma_marker_variant_same_cards(
    pre: Seq<Seq<char>>,
    m1: Seq<char>,
    m2: Seq<char>,
    kind: MarkerKind,
    rest: Seq<char>,
    post: Seq<Seq<char>>,
    mode: ParseMode,
)
    requires
        is_marker(m1, kind),
        is_marker(m2, kind),
    ensures
        cards_of_lines(pre + seq![m1 + rest] + post, mode) == cards_of_lines(
            pre + seq![m2 + rest] + post,
            mode,
        ),
{
    lemma_marker_variants_interchangeable(m1, m2, kind, rest);
    lemma_same_class_same_cards(pre, m1 + rest, m2 + rest, post, mode);
}

} // verus!
