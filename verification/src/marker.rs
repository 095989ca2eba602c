//! The marker table and the classification of lines by their prefix.

use crate::text::{chars_of, has_prefix, starts_with, string_of, trim, trim_bounds};
use vstd::prelude::*;
use vstd::string::*;

verus! {

/// What a marker at the start of a line announces.
#[derive(Clone, Copy, Debug, PartialEq, Eq)]
pub enum MarkerKind {
    Question,
    Answer,
    Fence,
}

/// A line of text, classified by the marker it starts with.
#[derive(Clone, Debug, PartialEq, Eq)]
pub enum MarkerLine {
    /// A question marker, with the trimmed text behind it.
    QuestionStart(String),
    /// An answer marker, with the trimmed text behind it.
    AnswerStart(String),
    /// A line without a marker, trimmed.
    FreeText(String),
    /// A line that opens or closes a fenced region.
    FenceToggle,
}

/// The mathematical value of a [`MarkerLine`].
pub ghost enum MarkerLineView {
    QuestionStart(Seq<char>),
    AnswerStart(Seq<char>),
    FreeText(Seq<char>),
    FenceToggle,
}

impl View for MarkerLine {
    type V = MarkerLineView;

    open spec fn view(&self) -> MarkerLineView {
        match *self {
            MarkerLine::QuestionStart(text) => MarkerLineView::QuestionStart(text@),
            MarkerLine::AnswerStart(text) => MarkerLineView::AnswerStart(text@),
            MarkerLine::FreeText(text) => MarkerLineView::FreeText(text@),
            MarkerLine::FenceToggle => MarkerLineView::FenceToggle,
        }
    }
}

/// The recognised markers in the order in which they are tried: question
/// markers, answer markers, then the fence delimiter. Each of the word markers
/// comes with a half-width and with a full-width colon.
pub open spec fn markers() -> Seq<(Seq<char>, MarkerKind)> {
    seq![
        ("问题:"@, MarkerKind::Question),
        ("问题："@, MarkerKind::Question),
        ("Question:"@, MarkerKind::Question),
        ("Question："@, MarkerKind::Question),
        ("答案:"@, MarkerKind::Answer),
        ("答案："@, MarkerKind::Answer),
        ("Answer:"@, MarkerKind::Answer),
        ("Answer："@, MarkerKind::Answer),
        ("回答:"@, MarkerKind::Answer),
        ("回答："@, MarkerKind::Answer),
        ("```"@, MarkerKind::Fence),
    ]
}

/// The first entry of `table`, from position `from` on, whose prefix `t`
/// begins with: its kind, and what of `t` follows the prefix. `None` where no
/// entry matches.
pub open spec fn match_marker(
    t: Seq<char>,
    table: Seq<(Seq<char>, MarkerKind)>,
    from: int,
) -> Option<(MarkerKind, Seq<char>)>
    decreases table.len() - from,
{
    if from < 0 || from >= table.len() {
        None
    } else if has_prefix(t, table[from].0) {
        Some((table[from].1, t.skip(table[from].0.len() as int)))
    } else {
        match_marker(t, table, from + 1)
    }
}

/// The class of a line under a marker table: the line is trimmed, the first
/// marker of the table that it starts with decides, and the text behind a
/// question or answer marker is trimmed again. Markers are compared exactly,
/// letter case included.
pub open spec fn classify_with(
    line: Seq<char>,
    table: Seq<(Seq<char>, MarkerKind)>,
) -> MarkerLineView {
    let t = trim(line);
    match match_marker(t, table, 0) {
        Some((MarkerKind::Question, rest)) => MarkerLineView::QuestionStart(trim(rest)),
        Some((MarkerKind::Answer, rest)) => MarkerLineView::AnswerStart(trim(rest)),
        Some((MarkerKind::Fence, _)) => MarkerLineView::FenceToggle,
        None => MarkerLineView::FreeText(t),
    }
}

/// The class of a line under the recognised markers.
pub open spec fn classify(line: Seq<char>) -> MarkerLineView {
    classify_with(line, markers())
}

/// The prefixes and kinds of an executable marker table.
pub open spec fn table_view(table: Seq<(&'static str, MarkerKind)>) -> Seq<
    (Seq<char>, MarkerKind),
> {
    table.map_values(|e: (&'static str, MarkerKind)| (e.0@, e.1))
}

/// The marker table, in the order in which its entries are tried.
pub fn marker_table() -> (table: Vec<(&'static str, MarkerKind)>)
    ensures
        table_view(table@) == markers(),
{
    let table = vec![
        ("问题:", MarkerKind::Question),
        ("问题：", MarkerKind::Question),
        ("Question:", MarkerKind::Question),
        ("Question：", MarkerKind::Question),
        ("答案:", MarkerKind::Answer),
        ("答案：", MarkerKind::Answer),
        ("Answer:", MarkerKind::Answer),
        ("Answer：", MarkerKind::Answer),
        ("回答:", MarkerKind::Answer),
        ("回答：", MarkerKind::Answer),
        ("```", MarkerKind::Fence),
    ];
    assert(table_view(table@) =~= markers());
    table
}

/// Classifies the line `chars[lo..hi]` against `table`.
pub fn classify_chars(
    chars: &Vec<char>,
    lo: usize,
    hi: usize,
    table: &Vec<(&'static str, MarkerKind)>,
) -> (line: MarkerLine)
    requires
        lo <= hi <= chars.len(),
    ensures
        line@ == classify_with(chars@.subrange(lo as int, hi as int), table_view(table@)),
{
    let (a, b) = trim_bounds(chars, lo, hi);
    let ghost t = chars@.subrange(a as int, b as int);
    let ghost all = table_view(table@);
    let mut i: usize = 0;
    while i < table.len()
        invariant
            i <= table.len(),
            lo <= a <= b <= hi <= chars.len(),
            t == chars@.subrange(a as int, b as int),
            t == trim(chars@.subrange(lo as int, hi as int)),
            all == table_view(table@),
            match_marker(t, all, 0) == match_marker(t, all, i as int),
        decreases table.len() - i,
    {
        let (prefix, kind) = table[i];
        assert(all[i as int] == (prefix@, kind));
        if starts_with(chars, a, b, prefix) {
            let n = prefix.unicode_len();
            let ghost rest = t.skip(n as int);
            assert(rest =~= chars@.subrange(a + n, b as int));
            assert(match_marker(t, all, i as int) == Some((kind, rest)));
            match kind {
                MarkerKind::Question => {
                    let (c, d) = trim_bounds(chars, a + n, b);
                    return MarkerLine::QuestionStart(string_of(chars, c, d));
                },
                MarkerKind::Answer => {
                    let (c, d) = trim_bounds(chars, a + n, b);
                    return MarkerLine::AnswerStart(string_of(chars, c, d));
                },
                MarkerKind::Fence => {
                    return MarkerLine::FenceToggle;
                },
            }
        }
        i += 1;
    }
    MarkerLine::FreeText(string_of(chars, a, b))
}

/// Classifies one line of text.
pub fn classify_line(line: &str) -> (class: MarkerLine)
    ensures
        class@ == classify(line@),
{
    let chars = chars_of(line);
    let table = marker_table();
    assert(chars@.subrange(0, chars.len() as int) =~= chars@);
    classify_chars(&chars, 0, chars.len(), &table)
}

} // verus!
