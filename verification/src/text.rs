//! Text as a sequence of characters: whitespace, trimming, and the segment
//! that follows the last separator.

use vstd::prelude::*;
use vstd::string::*;

verus! {

/// The carriage return, one of the two characters that end a command.
pub const CARRIAGE_RETURN: char = '\r';

/// The line feed, the other character that ends a command.
pub const LINE_FEED: char = '\n';

/// True for the characters that Unicode gives the property `White_Space`.
pub open spec fn whitespace(c: char) -> bool {
    ||| '\u{9}' <= c <= '\u{d}'
    ||| c == ' '
    ||| c == '\u{85}'
    ||| c == '\u{a0}'
    ||| c == '\u{1680}'
    ||| '\u{2000}' <= c <= '\u{200a}'
    ||| c == '\u{2028}'
    ||| c == '\u{2029}'
    ||| c == '\u{202f}'
    ||| c == '\u{205f}'
    ||| c == '\u{3000}'
}

/// True when every character of `s` is whitespace.
pub open spec fn blank(s: Seq<char>) -> bool {
    forall|i: int| 0 <= i < s.len() ==> whitespace(#[trigger] s[i])
}

/// `s` without the whitespace it starts with.
pub open spec fn trimmed_start(s: Seq<char>) -> Seq<char>
    decreases s.len(),
{
    if s.len() > 0 && whitespace(s.first()) {
        trimmed_start(s.drop_first())
    } else {
        s
    }
}

/// `s` without the whitespace it ends with.
pub open spec fn trimmed_end(s: Seq<char>) -> Seq<char>
    decreases s.len(),
{
    if s.len() > 0 && whitespace(s.last()) {
        trimmed_end(s.drop_last())
    } else {
        s
    }
}

/// `s` without the whitespace at either end.
pub open spec fn trimmed(s: Seq<char>) -> Seq<char> {
    trimmed_end(trimmed_start(s))
}

/// What follows the last `sep` in `s`; all of `s` where it holds no `sep`.
pub open spec fn last_segment(s: Seq<char>, sep: char) -> Seq<char>
    decreases s.len(),
{
    if s.len() == 0 || s.last() == sep {
        Seq::empty()
    } else {
        last_segment(s.drop_last(), sep).push(s.last())
    }
}

/// The character at which a trimmed buffer is split: the carriage return
/// where the buffer holds one, else the line feed.
pub open spec fn separator(t: Seq<char>) -> char {
    if t.contains(CARRIAGE_RETURN) {
        CARRIAGE_RETURN
    } else {
        LINE_FEED
    }
}

/// The line that a completed buffer stands for: the buffer is trimmed, then
/// split at its separator, and the last piece is the line.
pub open spec fn last_line(buffer: Seq<char>) -> Seq<char> {
    last_segment(trimmed(buffer), separator(trimmed(buffer)))
}

/// Trimming removes characters from the two ends only, and only whitespace.
pub proof fn lemma_trimmed_is_inner_range(s: Seq<char>) -> (bounds: (int, int))
    ensures
        0 <= bounds.0 <= bounds.1 <= s.len(),
        trimmed(s) == s.subrange(bounds.0, bounds.1),
        blank(s.subrange(0, bounds.0)),
        blank(s.subrange(bounds.1, s.len() as int)),
        bounds.0 < bounds.1 ==> !whitespace(s[bounds.0]) && !whitespace(s[bounds.1 - 1]),
        bounds.0 == bounds.1 ==> blank(s),
{
    let start = lemma_trimmed_start_is_suffix(s);
    let rest = s.subrange(start, s.len() as int);
    let len = lemma_trimmed_end_is_prefix(rest);
    let end = start + len;
    assert(rest.subrange(0, len) == s.subrange(start, end));
    assert(blank(s.subrange(end, s.len() as int))) by {
        assert(s.subrange(end, s.len() as int) == rest.subrange(len, rest.len() as int));
    }
    if start == end {
        assert forall|i: int| 0 <= i < s.len() implies whitespace(#[trigger] s[i]) by {
            if i < start {
                assert(s.subrange(0, start)[i] == s[i]);
            } else {
                assert(s.subrange(end, s.len() as int)[i - end] == s[i]);
            }
        }
    } else {
        assert(rest[0] == s[start]);
        assert(rest[len - 1] == s[end - 1]);
    }
    (start, end)
}

/// `trimmed_start` keeps a suffix, drops whitespace only, and stops at the
/// first character that is none.
pub proof fn lemma_trimmed_start_is_suffix(s: Seq<char>) -> (start: int)
    ensures
        0 <= start <= s.len(),
        trimmed_start(s) == s.subrange(start, s.len() as int),
        blank(s.subrange(0, start)),
        start < s.len() ==> !whitespace(s[start]),
    decreases s.len(),
{
    if s.len() > 0 && whitespace(s.first()) {
        let inner = lemma_trimmed_start_is_suffix(s.drop_first());
        let start = inner + 1;
        assert(s.drop_first().subrange(inner, s.len() - 1) == s.subrange(start, s.len() as int));
        assert forall|i: int| 0 <= i < start implies whitespace(
            #[trigger] s.subrange(0, start)[i],
        ) by {
            if i > 0 {
                assert(s.drop_first().subrange(0, inner)[i - 1] == s[i]);
            }
        }
        start
    } else {
        assert(s.subrange(0, s.len() as int) == s);
        0
    }
}

/// `trimmed_end` keeps a prefix, drops whitespace only, and stops at the
/// last character that is none.
pub proof fn lemma_trimmed_end_is_prefix(s: Seq<char>) -> (end: int)
    ensures
        0 <= end <= s.len(),
        trimmed_end(s) == s.subrange(0, end),
        blank(s.subrange(end, s.len() as int)),
        end > 0 ==> !whitespace(s[end - 1]),
    decreases s.len(),
{
    if s.len() > 0 && whitespace(s.last()) {
        let end = lemma_trimmed_end_is_prefix(s.drop_last());
        assert(s.drop_last().subrange(0, end) == s.subrange(0, end));
        assert forall|i: int| 0 <= i < s.len() - end implies whitespace(
            #[trigger] s.subrange(end, s.len() as int)[i],
        ) by {
            if end + i < s.len() - 1 {
                assert(s.drop_last().subrange(end, s.len() - 1)[i] == s[end + i]);
            }
        }
        end
    } else {
        assert(s.subrange(0, s.len() as int) == s);
        s.len() as int
    }
}

/// The last segment of `s` is the suffix that starts at `from`, where no
/// separator stands from there on and one stands just before.
pub proof fn lemma_last_segment_is_suffix(s: Seq<char>, sep: char, from: int)
    requires
        0 <= from <= s.len(),
        from > 0 ==> s[from - 1] == sep,
        forall|i: int| from <= i < s.len() ==> s[i] != sep,
    ensures
        last_segment(s, sep) == s.subrange(from, s.len() as int),
    decreases s.len(),
{
    if from < s.len() {
        lemma_last_segment_is_suffix(s.drop_last(), sep, from);
        assert(s.drop_last().subrange(from, s.len() - 1).push(s.last()) == s.subrange(
            from,
            s.len() as int,
        ));
    } else {
        assert(s.subrange(from, s.len() as int) == Seq::<char>::empty());
    }
}

/// Tells whether `c` is whitespace.
pub fn is_whitespace(c: char) -> (yes: bool)
    ensures
        yes == whitespace(c),
{
    ('\u{9}' <= c && c <= '\u{d}') || c == ' ' || c == '\u{85}' || c == '\u{a0}' || c
        == '\u{1680}' || ('\u{2000}' <= c && c <= '\u{200a}') || c == '\u{2028}' || c
        == '\u{2029}' || c == '\u{202f}' || c == '\u{205f}' || c == '\u{3000}'
}

/// The characters of `text`, in order.
pub fn to_chars(text: &str) -> (chars: Vec<char>)
    ensures
        chars@ == text@,
{
    let mut chars: Vec<char> = Vec::new();
    for c in it: text.chars()
        invariant
            it.seq() == text@,
            chars@ == it.seq().take(it.index() as int),
    {
        chars.push(c);
    }
    chars
}

/// The range of `chars` that trimming keeps: from the first character that
/// is no whitespace up to and with the last. Blank text keeps the empty
/// range at its end.
pub fn trim_bounds(chars: &[char]) -> (bounds: (usize, usize))
    ensures
        bounds.0 <= bounds.1 <= chars@.len(),
        chars@.subrange(bounds.0 as int, bounds.1 as int) == trimmed(chars@),
        blank(chars@.subrange(0, bounds.0 as int)),
        blank(chars@.subrange(bounds.1 as int, chars@.len() as int)),
        bounds.0 < bounds.1 ==> !whitespace(chars@[bounds.0 as int]) && !whitespace(
            chars@[bounds.1 - 1],
        ),
        bounds.0 == bounds.1 ==> bounds.1 == chars@.len(),
{
    let len = chars.len();
    let mut start: usize = 0;
    assert(chars@.subrange(0, len as int) == chars@);
    while start < len && is_whitespace(chars[start])
        invariant
            len == chars@.len(),
            start <= len,
            trimmed_start(chars@) == trimmed_start(chars@.subrange(start as int, len as int)),
            blank(chars@.subrange(0, start as int)),
        decreases len - start,
    {
        assert(chars@.subrange(start as int, len as int).drop_first() == chars@.subrange(
            start + 1,
            len as int,
        ));
        assert forall|i: int| 0 <= i < start + 1 implies whitespace(
            #[trigger] chars@.subrange(0, start + 1)[i],
        ) by {
            if i < start {
                assert(chars@.subrange(0, start as int)[i] == chars@[i]);
            }
        }
        start += 1;
    }
    let ghost kept = chars@.subrange(start as int, len as int);
    assert(trimmed_start(chars@) == kept);
    let mut end: usize = len;
    while end > start && is_whitespace(chars[end - 1])
        invariant
            len == chars@.len(),
            start <= end <= len,
            kept == chars@.subrange(start as int, len as int),
            trimmed_end(kept) == trimmed_end(chars@.subrange(start as int, end as int)),
            blank(chars@.subrange(end as int, len as int)),
            start < len ==> !whitespace(chars@[start as int]),
        decreases end - start,
    {
        assert(chars@.subrange(start as int, end as int).drop_last() == chars@.subrange(
            start as int,
            end - 1,
        ));
        assert forall|i: int| 0 <= i < len - (end - 1) implies whitespace(
            #[trigger] chars@.subrange(end - 1, len as int)[i],
        ) by {
            if i > 0 {
                assert(chars@.subrange(end as int, len as int)[i - 1] == chars@[end - 1 + i]);
            }
        }
        end -= 1;
    }
    (start, end)
}

/// Tells whether `c` occurs in `chars` from `start` up to `end`.
pub fn range_contains(chars: &[char], start: usize, end: usize, c: char) -> (found: bool)
    requires
        start <= end <= chars@.len(),
    ensures
        found == chars@.subrange(start as int, end as int).contains(c),
{
    let ghost range = chars@.subrange(start as int, end as int);
    let mut i: usize = start;
    while i < end
        invariant
            start <= i <= end <= chars@.len(),
            range == chars@.subrange(start as int, end as int),
            forall|k: int| 0 <= k < i - start ==> range[k] != c,
        decreases end - i,
    {
        if chars[i] == c {
            assert(range[i - start] == c);
            return true;
        }
        i += 1;
    }
    false
}

/// Where the last segment of `chars[start..end]` begins.
pub fn last_segment_start(chars: &[char], start: usize, end: usize, sep: char) -> (from: usize)
    requires
        start <= end <= chars@.len(),
    ensures
        start <= from <= end,
        chars@.subrange(from as int, end as int) == last_segment(
            chars@.subrange(start as int, end as int),
            sep,
        ),
{
    let ghost range = chars@.subrange(start as int, end as int);
    let mut from: usize = end;
    while from > start && chars[from - 1] != sep
        invariant
            start <= from <= end <= chars@.len(),
            range == chars@.subrange(start as int, end as int),
            forall|k: int| from - start <= k < range.len() ==> range[k] != sep,
        decreases from - start,
    {
        from -= 1;
    }
    proof {
        lemma_last_segment_is_suffix(range, sep, from - start);
        assert(range.subrange(from - start, range.len() as int) == chars@.subrange(
            from as int,
            end as int,
        ));
    }
    from
}

/// Takes the line out of a completed buffer.
pub fn extract_line(buffer: &str) -> (line: String)
    ensures
        line@ == last_line(buffer@),
{
    let chars = to_chars(buffer);
    let (start, end) = trim_bounds(chars.as_slice());
    let sep = if range_contains(chars.as_slice(), start, end, CARRIAGE_RETURN) {
        CARRIAGE_RETURN
    } else {
        LINE_FEED
    };
    let from = last_segment_start(chars.as_slice(), start, end, sep);
    buffer.substring_char(from, end).to_owned()
}

} // verus!
