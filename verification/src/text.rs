//! Text as sequences of characters: whitespace, trimming, literal search and
//! the division of a text into physical lines.

use vstd::prelude::*;

verus! {

/// Whether `c` carries the Unicode `White_Space` property.
pub open spec fn is_whitespace(c: char) -> bool {
    let n = c as u32;
    ||| 0x0009 <= n <= 0x000D
    ||| n == 0x0020
    ||| n == 0x0085
    ||| n == 0x00A0
    ||| n == 0x1680
    ||| 0x2000 <= n <= 0x200A
    ||| n == 0x2028
    ||| n == 0x2029
    ||| n == 0x202F
    ||| n == 0x205F
    ||| n == 0x3000
}

/// `s` without its leading whitespace.
pub open spec fn trim_start(s: Seq<char>) -> Seq<char>
    decreases s.len(),
{
    if s.len() > 0 && is_whitespace(s.first()) {
        trim_start(s.drop_first())
    } else {
        s
    }
}

/// `s` without its trailing whitespace.
pub open spec fn trim_end(s: Seq<char>) -> Seq<char>
    decreases s.len(),
{
    if s.len() > 0 && is_whitespace(s.last()) {
        trim_end(s.drop_last())
    } else {
        s
    }
}

/// `s` without leading and trailing whitespace.
pub open spec fn trimmed(s: Seq<char>) -> Seq<char> {
    trim_end(trim_start(s))
}

/// Whether `needle` occurs in `s` as a contiguous run of characters.
pub open spec fn contains_seq(s: Seq<char>, needle: Seq<char>) -> bool {
    exists|i: int|
        0 <= i && i + needle.len() <= s.len() && #[trigger] s.subrange(i, i + needle.len())
            == needle
}

/// The number of characters before the first line feed of `s`, or the length
/// of `s` where it holds none.
pub open spec fn line_end(s: Seq<char>) -> int
    decreases s.len(),
{
    if s.len() == 0 || s.first() == '\n' {
        0
    } else {
        1 + line_end(s.drop_first())
    }
}

/// `s` without one final carriage return.
pub open spec fn strip_cr(s: Seq<char>) -> Seq<char> {
    if s.len() > 0 && s.last() == '\r' {
        s.drop_last()
    } else {
        s
    }
}

/// Where the line begins that follows a line whose last character stands
/// before `end`: behind the line feed at `end`, or behind the carriage return
/// there and the line feed after it.
pub open spec fn next_line_start(text: Seq<char>, end: int) -> int {
    if text[end] == '\r' {
        end + 2
    } else {
        end + 1
    }
}

/// The physical lines of a text. A line ends at a line feed; a carriage
/// return directly before that line feed belongs to the line ending. The last
/// line need not be terminated, and a terminated last line is not followed by
/// an empty one.
pub open spec fn lines_of(s: Seq<char>) -> Seq<Seq<char>>
    decreases s.len(),
{
    if s.len() == 0 {
        Seq::empty()
    } else {
        let n = line_end(s);
        if 0 <= n < s.len() {
            seq![strip_cr(s.take(n))] + lines_of(s.skip(n + 1))
        } else {
            seq![s]
        }
    }
}

/// `trim_start` drops exactly the whitespace before the first character that
/// is none.
pub proof fn lemma_trim_start(s: Seq<char>, n: int)
    requires
        0 <= n <= s.len(),
        forall|i: int| 0 <= i < n ==> is_whitespace(#[trigger] s[i]),
        n < s.len() ==> !is_whitespace(s[n]),
    ensures
        trim_start(s) == s.skip(n),
    decreases n,
{
    if n == 0 {
        assert(s.skip(0) =~= s);
    } else {
        let rest = s.drop_first();
        assert forall|i: int| 0 <= i < n - 1 implies is_whitespace(#[trigger] rest[i]) by {
            assert(rest[i] == s[i + 1]);
        }
        lemma_trim_start(rest, n - 1);
        assert(rest.skip(n - 1) =~= s.skip(n));
    }
}

/// `trim_end` drops exactly the whitespace after the last character that is
/// none.
pub proof fn lemma_trim_end(s: Seq<char>, n: int)
    requires
        0 <= n <= s.len(),
        forall|i: int| n <= i < s.len() ==> is_whitespace(#[trigger] s[i]),
        n > 0 ==> !is_whitespace(s[n - 1]),
    ensures
        trim_end(s) == s.take(n),
    decreases s.len() - n,
{
    if n == s.len() {
        assert(s.take(n) =~= s);
    } else {
        let rest = s.drop_last();
        lemma_trim_end(rest, n);
        assert(rest.take(n) =~= s.take(n));
    }
}

/// `line_end` is the place of the first line feed.
pub proof fn lemma_line_end(s: Seq<char>, n: int)
    requires
        0 <= n <= s.len(),
        forall|i: int| 0 <= i < n ==> #[trigger] s[i] != '\n',
        n < s.len() ==> s[n] == '\n',
    ensures
        line_end(s) == n,
    decreases n,
{
    if n > 0 {
        let rest = s.drop_first();
        assert forall|i: int| 0 <= i < n - 1 implies #[trigger] rest[i] != '\n' by {
            assert(rest[i] == s[i + 1]);
        }
        lemma_line_end(rest, n - 1);
    }
}

/// Whether `c` carries the Unicode `White_Space` property.
pub fn char_is_whitespace(c: char) -> (b: bool)
    ensures
        b == is_whitespace(c),
{
    let n: u32 = c as u32;
    (0x0009 <= n && n <= 0x000D) || n == 0x0020 || n == 0x0085 || n == 0x00A0 || n == 0x1680 || (
    0x2000 <= n && n <= 0x200A) || n == 0x2028 || n == 0x2029 || n == 0x202F || n == 0x205F || n
        == 0x3000
}

/// The characters of `s`, in order.
pub fn chars_of(s: &str) -> (v: Vec<char>)
    ensures
        v@ == s@,
{
    let mut v: Vec<char> = Vec::new();
    for c in it: s.chars()
        invariant
            v@ == it.seq().take(it.index()),
    {
        v.push(c);
    }
    v
}

/// The bounds of the trimmed part of `line`.
pub fn trim_bounds(line: &[char]) -> (r: (usize, usize))
    ensures
        r.0 <= r.1 <= line@.len(),
        r.0 == line@.len() - trim_start(line@).len(),
        line@.subrange(r.0 as int, r.1 as int) == trimmed(line@),
{
    let n: usize = line.len();
    let mut start: usize = 0;
    while start < n && char_is_whitespace(line[start])
        invariant
            start <= n,
            n == line@.len(),
            forall|i: int| 0 <= i < start ==> is_whitespace(#[trigger] line@[i]),
        decreases n - start,
    {
        start += 1;
    }
    let mut end: usize = n;
    while end > start && char_is_whitespace(line[end - 1])
        invariant
            start <= end <= n,
            n == line@.len(),
            forall|i: int| end <= i < n ==> is_whitespace(#[trigger] line@[i]),
        decreases end,
    {
        end -= 1;
    }
    proof {
        let rest = line@.skip(start as int);
        lemma_trim_start(line@, start as int);
        assert forall|i: int| end - start <= i < rest.len() implies is_whitespace(
            #[trigger] rest[i],
        ) by {
            assert(rest[i] == line@[i + start]);
        }
        lemma_trim_end(rest, end - start);
        assert(rest.take(end - start) =~= line@.subrange(start as int, end as int));
    }
    (start, end)
}

/// Whether `s` begins with `prefix`.
pub fn has_prefix(s: &[char], prefix: &[char]) -> (b: bool)
    ensures
        b == prefix@.is_prefix_of(s@),
{
    let n: usize = prefix.len();
    if n > s.len() {
        return false;
    }
    let mut i: usize = 0;
    while i < n
        invariant
            i <= n,
            n == prefix@.len(),
            n <= s@.len(),
            forall|j: int| 0 <= j < i ==> s@[j] == prefix@[j],
        decreases n - i,
    {
        if s[i] != prefix[i] {
            assert(s@.subrange(0, n as int)[i as int] != prefix@[i as int]);
            return false;
        }
        i += 1;
    }
    assert(prefix@ =~= s@.subrange(0, n as int));
    true
}

/// Whether `s` ends with `suffix`.
pub fn has_suffix(s: &[char], suffix: &[char]) -> (b: bool)
    ensures
        b == suffix@.is_suffix_of(s@),
{
    let n: usize = suffix.len();
    let len: usize = s.len();
    if n > len {
        return false;
    }
    let tail: &[char] = &s[len - n..len];
    let b = has_prefix(tail, suffix);
    assert(tail@.subrange(0, n as int) =~= tail@);
    b
}

/// Whether `needle` occurs in `s`.
pub fn has_infix(s: &[char], needle: &[char]) -> (b: bool)
    ensures
        b == contains_seq(s@, needle@),
{
    let n: usize = needle.len();
    let len: usize = s.len();
    if n > len {
        return false;
    }
    let last: usize = len - n;
    let mut i: usize = 0;
    loop
        invariant
            i <= last,
            last + n == len,
            len == s@.len(),
            n == needle@.len(),
            forall|j: int| 0 <= j < i ==> #[trigger] s@.subrange(j, j + n) != needle@,
        decreases last - i,
    {
        let rest: &[char] = &s[i..len];
        let found = has_prefix(rest, needle);
        assert(rest@.subrange(0, n as int) =~= s@.subrange(i as int, i + n));
        if found {
            return true;
        }
        if i == last {
            return false;
        }
        i += 1;
    }
}

/// Whether `a` and `b` hold the same characters.
pub fn same_chars(a: &[char], b: &[char]) -> (r: bool)
    ensures
        r == (a@ == b@),
{
    if a.len() != b.len() {
        return false;
    }
    let r = has_prefix(a, b);
    assert(a@.subrange(0, a@.len() as int) =~= a@);
    r
}

/// The bounds of each physical line of `text`, in order: the first line
/// begins at the start, and each other line behind the ending of the line
/// before it.
pub fn line_ranges(text: &[char]) -> (ranges: Vec<(usize, usize)>)
    ensures
        ranges@.len() == lines_of(text@).len(),
        ranges@.len() > 0 ==> ranges@[0].0 == 0,
        forall|i: int|
            0 <= i && i + 1 < ranges@.len() ==> ranges@[i + 1].0 == next_line_start(
                text@,
                (#[trigger] ranges@[i]).1 as int,
            ),
        forall|i: int|
            0 <= i < ranges@.len() ==> (#[trigger] ranges@[i]).0 <= ranges@[i].1 <= text@.len(),
        forall|i: int|
            0 <= i < ranges@.len() ==> text@.subrange(
                (#[trigger] ranges@[i]).0 as int,
                ranges@[i].1 as int,
            ) == lines_of(text@)[i],
{
    let len: usize = text.len();
    let mut ranges: Vec<(usize, usize)> = Vec::new();
    let ghost mut done: Seq<Seq<char>> = Seq::empty();
    let mut pos: usize = 0;
    proof {
        assert(text@.skip(0) =~= text@);
        assert(done + lines_of(text@) =~= lines_of(text@));
    }
    while pos < len
        invariant
            pos <= len,
            len == text@.len(),
            done + lines_of(text@.skip(pos as int)) == lines_of(text@),
            ranges@.len() == done.len(),
            ranges@.len() == 0 ==> pos == 0,
            ranges@.len() > 0 ==> ranges@[0].0 == 0,
            ranges@.len() > 0 && pos < len ==> pos == next_line_start(
                text@,
                ranges@[ranges@.len() - 1].1 as int,
            ),
            forall|i: int|
                0 <= i && i + 1 < ranges@.len() ==> ranges@[i + 1].0 == next_line_start(
                    text@,
                    (#[trigger] ranges@[i]).1 as int,
                ),
            forall|i: int|
                0 <= i < ranges@.len() ==> (#[trigger] ranges@[i]).0 <= ranges@[i].1 <= len,
            forall|i: int|
                0 <= i < ranges@.len() ==> text@.subrange(
                    (#[trigger] ranges@[i]).0 as int,
                    ranges@[i].1 as int,
                ) == done[i],
        decreases len - pos,
    {
        let ghost rest = text@.skip(pos as int);
        let mut stop: usize = pos;
        while stop < len && text[stop] != '\n'
            invariant
                pos <= stop <= len,
                len == text@.len(),
                forall|i: int| pos <= i < stop ==> #[trigger] text@[i] != '\n',
            decreases len - stop,
        {
            stop += 1;
        }
        proof {
            assert forall|i: int| 0 <= i < stop - pos implies #[trigger] rest[i] != '\n' by {
                assert(rest[i] == text@[i + pos]);
            }
            lemma_line_end(rest, stop - pos);
        }
        if stop == len {
            proof {
                assert(rest.skip(rest.len() as int) =~= Seq::<char>::empty());
                assert(text@.skip(len as int) =~= Seq::<char>::empty());
                assert(text@.subrange(pos as int, len as int) =~= rest);
                assert(done.push(rest) + Seq::<Seq<char>>::empty() =~= done + seq![rest]);
                done = done.push(rest);
            }
            ranges.push((pos, len));
            pos = len;
        } else {
            let mut end: usize = stop;
            if end > pos && text[end - 1] == '\r' {
                end -= 1;
            }
            proof {
                let raw = rest.take(stop - pos);
                let line = strip_cr(raw);
                assert(raw =~= text@.subrange(pos as int, stop as int));
                assert(line =~= text@.subrange(pos as int, end as int));
                assert(rest.skip(stop - pos + 1) =~= text@.skip(stop + 1));
                assert(done.push(line) + lines_of(text@.skip(stop + 1)) =~= done + (seq![line]
                    + lines_of(text@.skip(stop + 1))));
                done = done.push(line);
            }
            ranges.push((pos, end));
            pos = stop + 1;
        }
    }
    proof {
        assert(text@.skip(len as int) =~= Seq::<char>::empty());
        assert(done + Seq::<Seq<char>>::empty() =~= done);
    }
    ranges
}

} // verus!
