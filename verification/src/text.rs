//! Character-level text primitives: whitespace, trimming, prefixes and lines.

use vstd::prelude::*;

verus! {

/// The code points that carry the Unicode `White_Space` property.
pub open spec fn is_space(c: char) -> bool {
    let n = c as u32;
    ||| 0x09 <= n <= 0x0D
    ||| n == 0x20
    ||| n == 0x85
    ||| n == 0xA0
    ||| n == 0x1680
    ||| 0x2000 <= n <= 0x200A
    ||| n == 0x2028
    ||| n == 0x2029
    ||| n == 0x202F
    ||| n == 0x205F
    ||| n == 0x3000
}

/// `s` without its leading whitespace.
pub open spec fn trim_start(s: Seq<char>) -> Seq<char>
    decreases s.len(),
{
    if s.len() > 0 && is_space(s[0]) {
        trim_start(s.drop_first())
    } else {
        s
    }
}

/// `s` without its trailing whitespace.
pub open spec fn trim_end(s: Seq<char>) -> Seq<char>
    decreases s.len(),
{
    if s.len() > 0 && is_space(s.last()) {
        trim_end(s.drop_last())
    } else {
        s
    }
}

/// `s` without leading and trailing whitespace.
pub open spec fn trim(s: Seq<char>) -> Seq<char> {
    trim_end(trim_start(s))
}

/// Whether `c` is Unicode whitespace.
pub fn is_whitespace(c: char) -> (r: bool)
    ensures
        r == is_space(c),
{
    let n: u32 = c as u32;
    (0x09 <= n && n <= 0x0D) || n == 0x20 || n == 0x85 || n == 0xA0 || n == 0x1680 || (0x2000 <= n
        && n <= 0x200A) || n == 0x2028 || n == 0x2029 || n == 0x202F || n == 0x205F || n == 0x3000
}

/// The characters of `s`, in order.
pub fn chars_of(s: &str) -> (chars: Vec<char>)
    ensures
        chars@ == s@,
{
    let mut chars: Vec<char> = Vec::new();
    for c in it: s.chars()
        invariant
            chars@ == it.seq().take(it.index()),
            it.seq() == s@,
    {
        chars.push(c);
    }
    chars
}

/// `std::string::String::push`: appends one character to the end of the
/// string and leaves the rest as it was.
pub assume_specification[ String::push ](s: &mut String, ch: char)
    ensures
        final(s)@ == old(s)@.push(ch),
;

/// The characters `chars[lo..hi]` as a string.
pub fn string_of(chars: &Vec<char>, lo: usize, hi: usize) -> (s: String)
    requires
        lo <= hi <= chars.len(),
    ensures
        s@ == chars@.subrange(lo as int, hi as int),
{
    let mut s = String::new();
    let mut i: usize = lo;
    while i < hi
        invariant
            lo <= i <= hi <= chars.len(),
            s@ == chars@.subrange(lo as int, i as int),
        decreases hi - i,
    {
        s.push(chars[i]);
        i += 1;
    }
    s
}

/// Whether `t` begins with `prefix`.
pub open spec fn has_prefix(t: Seq<char>, prefix: Seq<char>) -> bool {
    prefix.len() <= t.len() && t.take(prefix.len() as int) == prefix
}

/// Whether `chars[lo..hi]` begins with `prefix`.
pub fn starts_with(chars: &Vec<char>, lo: usize, hi: usize, prefix: &str) -> (r: bool)
    requires
        lo <= hi <= chars.len(),
    ensures
        r == has_prefix(chars@.subrange(lo as int, hi as int), prefix@),
{
    let ghost t = chars@.subrange(lo as int, hi as int);
    let mut i: usize = lo;
    for c in it: prefix.chars()
        invariant
            it.seq() == prefix@,
            lo <= i <= hi <= chars.len(),
            i - lo == it.index(),
            t == chars@.subrange(lo as int, hi as int),
            t.take(it.index() as int) == prefix@.take(it.index() as int),
    {
        if i >= hi || chars[i] != c {
            proof {
                if has_prefix(t, prefix@) {
                    let k = it.index() as int;
                    assert(t.take(prefix@.len() as int)[k] == prefix@[k]);
                }
            }
            return false;
        }
        assert(t.take(it.index() + 1) == prefix@.take(it.index() + 1)) by {
            assert(t.take(it.index() + 1) =~= t.take(it.index() as int).push(t[it.index() as int]));
            assert(prefix@.take(it.index() + 1) =~= prefix@.take(it.index() as int).push(
                prefix@[it.index() as int],
            ));
        }
        i += 1;
    }
    assert(prefix@.take(prefix@.len() as int) =~= prefix@);
    true
}

/// The bounds of `chars[lo..hi]` without its leading and trailing whitespace.
pub fn trim_bounds(chars: &Vec<char>, lo: usize, hi: usize) -> (r: (usize, usize))
    requires
        lo <= hi <= chars.len(),
    ensures
        lo <= r.0 <= r.1 <= hi,
        chars@.subrange(r.0 as int, r.1 as int) == trim(chars@.subrange(lo as int, hi as int)),
{
    let mut a: usize = lo;
    while a < hi && is_whitespace(chars[a])
        invariant
            lo <= a <= hi <= chars.len(),
            trim_start(chars@.subrange(lo as int, hi as int)) == trim_start(
                chars@.subrange(a as int, hi as int),
            ),
        decreases hi - a,
    {
        assert(chars@.subrange(a as int, hi as int).drop_first() =~= chars@.subrange(
            a + 1,
            hi as int,
        ));
        a += 1;
    }
    let mut b: usize = hi;
    while a < b && is_whitespace(chars[b - 1])
        invariant
            a <= b <= hi <= chars.len(),
            trim_end(chars@.subrange(a as int, hi as int)) == trim_end(
                chars@.subrange(a as int, b as int),
            ),
        decreases b - a,
    {
        assert(chars@.subrange(a as int, b as int).drop_last() =~= chars@.subrange(
            a as int,
            b - 1,
        ));
        b -= 1;
    }
    (a, b)
}

/// The position of the first line break in `s`, or the length of `s` where
/// it has none.
pub open spec fn line_length(s: Seq<char>) -> int
    decreases s.len(),
{
    if s.len() == 0 || s[0] == '\n' {
        0
    } else {
        1 + line_length(s.drop_first())
    }
}

/// The lines of `s`: the pieces between its line breaks, of which there is one
/// more than there are line breaks.
pub open spec fn split_lines(s: Seq<char>) -> Seq<Seq<char>>
    decreases s.len(),
{
    let k = line_length(s);
    if 0 <= k < s.len() {
        seq![s.take(k)] + split_lines(s.skip(k + 1))
    } else {
        seq![s]
    }
}

/// The sequences of `parts` joined into one, in order.
pub open spec fn concat_all(parts: Seq<Seq<char>>) -> Seq<char>
    decreases parts.len(),
{
    if parts.len() == 0 {
        Seq::empty()
    } else {
        concat_all(parts.drop_last()) + parts.last()
    }
}

/// The first line ends within the text, at a line break or at the end of
/// the text, and holds no line break.
pub proof fn lemma_line_length_bounds(s: Seq<char>)
    ensures
        0 <= line_length(s) <= s.len(),
        line_length(s) < s.len() ==> s[line_length(s)] == '\n',
        forall|i: int| 0 <= i < line_length(s) ==> s[i] != '\n',
    decreases s.len(),
{
    if s.len() == 0 || s[0] == '\n' {
    } else {
        lemma_line_length_bounds(s.drop_first());
        assert forall|i: int| 0 <= i < line_length(s) implies s[i] != '\n' by {
            if i > 0 {
                assert(s[i] == s.drop_first()[i - 1]);
            }
        }
    }
}

/// The number of whitespace characters that `s` begins with.
pub open spec fn leading_spaces(s: Seq<char>) -> int
    decreases s.len(),
{
    if s.len() > 0 && is_space(s[0]) {
        1 + leading_spaces(s.drop_first())
    } else {
        0
    }
}

/// The number of whitespace characters that `s` ends with.
pub open spec fn trailing_spaces(s: Seq<char>) -> int
    decreases s.len(),
{
    if s.len() > 0 && is_space(s.last()) {
        1 + trailing_spaces(s.drop_last())
    } else {
        0
    }
}

/// `trim_start` takes away the whitespace that the text begins with, all of
/// it and nothing else.
pub proof fn lemma_trim_start_shape(s: Seq<char>)
    ensures
        0 <= leading_spaces(s) <= s.len(),
        trim_start(s) == s.skip(leading_spaces(s)),
        forall|i: int| 0 <= i < leading_spaces(s) ==> is_space(s[i]),
        leading_spaces(s) < s.len() ==> !is_space(s[leading_spaces(s)]),
    decreases s.len(),
{
    if s.len() > 0 && is_space(s[0]) {
        let r = s.drop_first();
        lemma_trim_start_shape(r);
        assert(r.skip(leading_spaces(r)) =~= s.skip(leading_spaces(s)));
        assert forall|i: int| 0 <= i < leading_spaces(s) implies is_space(s[i]) by {
            if i > 0 {
                assert(s[i] == r[i - 1]);
            }
        }
    } else {
        assert(s.skip(0) =~= s);
    }
}

/// `trim_end` takes away the whitespace that the text ends with, all of it
/// and nothing else.
pub proof fn lemma_trim_end_shape(s: Seq<char>)
    ensures
        0 <= trailing_spaces(s) <= s.len(),
        trim_end(s) == s.take(s.len() - trailing_spaces(s)),
        forall|i: int| s.len() - trailing_spaces(s) <= i < s.len() ==> is_space(s[i]),
        trailing_spaces(s) < s.len() ==> !is_space(s[s.len() - trailing_spaces(s) - 1]),
    decreases s.len(),
{
    if s.len() > 0 && is_space(s.last()) {
        let r = s.drop_last();
        lemma_trim_end_shape(r);
        assert(r.take(r.len() - trailing_spaces(r)) =~= s.take(s.len() - trailing_spaces(s)));
        assert forall|i: int| s.len() - trailing_spaces(s) <= i < s.len() implies is_space(
            s[i],
        ) by {
            if i < r.len() {
                assert(s[i] == r[i]);
            }
        }
    } else {
        assert(s.take(s.len() as int) =~= s);
    }
}

/// Trimming keeps one piece of the text: the piece from its first to its
/// last character that is not whitespace. Trimming what is trimmed changes
/// nothing.
pub proof fn lemma_trim_shape(s: Seq<char>)
    ensures
        ({
            let a = leading_spaces(s);
            let b = s.len() - trailing_spaces(s.skip(a));
            &&& 0 <= a <= b <= s.len()
            &&& trim(s) == s.subrange(a, b)
            &&& forall|i: int| 0 <= i < a ==> is_space(s[i])
            &&& forall|i: int| b <= i < s.len() ==> is_space(s[i])
            &&& a < b ==> !is_space(s[a]) && !is_space(s[b - 1])
        }),
        trim(trim(s)) == trim(s),
{
    let a = leading_spaces(s);
    lemma_trim_start_shape(s);
    let rest = s.skip(a);
    lemma_trim_end_shape(rest);
    let b = s.len() - trailing_spaces(rest);
    assert(rest.take(rest.len() - trailing_spaces(rest)) =~= s.subrange(a, b));
    assert forall|i: int| b <= i < s.len() implies is_space(s[i]) by {
        assert(s[i] == rest[i - a]);
    }
    if a < b {
        assert(s[b - 1] == rest[b - 1 - a]);
        assert(s[a] == rest[0]);
    }
    let t = trim(s);
    if t.len() > 0 {
        assert(t[0] == s[a]);
        assert(t.last() == s[b - 1]);
    }
    assert(trim_start(t) == t);
    assert(trim_end(t) == t);
}

/// The lines of `lines` joined into one text, with a line break between
/// each two.
pub open spec fn join_lines(lines: Seq<Seq<char>>) -> Seq<char>
    decreases lines.len(),
{
    if lines.len() == 0 {
        Seq::empty()
    } else if lines.len() == 1 {
        lines[0]
    } else {
        lines[0] + seq!['\n'] + join_lines(lines.drop_first())
    }
}

/// Splitting loses nothing: a text has at least one line, no line holds a
/// line break, and the lines joined by line breaks give the text again.
pub proof fn lemma_split_lines_shape(s: Seq<char>)
    ensures
        split_lines(s).len() >= 1,
        forall|i: int, j: int|
            0 <= i < split_lines(s).len() && 0 <= j < split_lines(s)[i].len() ==> split_lines(
                s,
            )[i][j] != '\n',
        join_lines(split_lines(s)) == s,
    decreases s.len(),
{
    let k = line_length(s);
    lemma_line_length_bounds(s);
    if k < s.len() {
        let rest = s.skip(k + 1);
        let tail = split_lines(rest);
        lemma_split_lines_shape(rest);
        let lines = split_lines(s);
        assert(lines.drop_first() =~= tail);
        assert(lines[0] == s.take(k));
        assert(s.take(k) + seq!['\n'] + rest =~= s);
        assert forall|i: int, j: int|
            0 <= i < lines.len() && 0 <= j < lines[i].len() implies lines[i][j] != '\n' by {
            if i > 0 {
                assert(lines[i] == tail[i - 1]);
            }
        }
    }
}

/// The first line of `a + b` is the first line of `a` where `a` holds a line
/// break; where it holds none, the first line goes on into `b`.
pub proof fn lemma_line_length_concat(a: Seq<char>, b: Seq<char>)
    ensures
        line_length(a + b) == if line_length(a) < a.len() {
            line_length(a)
        } else {
            a.len() + line_length(b)
        },
    decreases a.len(),
{
    lemma_line_length_bounds(a);
    if a.len() == 0 {
        assert(a + b =~= b);
    } else if a[0] != '\n' {
        assert((a + b).drop_first() =~= a.drop_first() + b);
        lemma_line_length_concat(a.drop_first(), b);
    }
}

/// The lines of two texts joined by a line break are the lines of the first
/// followed by the lines of the second.
pub proof fn lemma_split_lines_joined(a: Seq<char>, b: Seq<char>)
    ensures
        split_lines(a + seq!['\n'] + b) == split_lines(a) + split_lines(b),
    decreases a.len(),
{
    let joined = a + seq!['\n'] + b;
    let k = line_length(a);
    lemma_line_length_bounds(a);
    lemma_line_length_concat(a, seq!['\n'] + b);
    assert(joined =~= a + (seq!['\n'] + b));
    assert(line_length(seq!['\n'] + b) == 0);
    if k < a.len() {
        assert(joined.take(k) =~= a.take(k));
        assert(joined.skip(k + 1) =~= a.skip(k + 1) + seq!['\n'] + b);
        lemma_split_lines_joined(a.skip(k + 1), b);
    } else {
        assert(joined.take(k) =~= a);
        assert(joined.skip(k + 1) =~= b);
    }
}

/// The end of the line that starts at `pos`: the position of the next line
/// break, or the end of the text.
pub fn line_end(chars: &Vec<char>, pos: usize) -> (end: usize)
    requires
        pos <= chars.len(),
    ensures
        pos <= end <= chars.len(),
        end - pos == line_length(chars@.skip(pos as int)),
{
    let mut end: usize = pos;
    while end < chars.len() && chars[end] != '\n'
        invariant
            pos <= end <= chars.len(),
            line_length(chars@.skip(pos as int)) == (end - pos) + line_length(
                chars@.skip(end as int),
            ),
        decreases chars.len() - end,
    {
        assert(chars@.skip(end as int).drop_first() =~= chars@.skip(end + 1));
        end += 1;
    }
    end
}

} // verus!
