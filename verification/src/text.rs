//! Text utilities: character/blank/line counts and whitespace
//! trimming.

use vstd::prelude::*;
use vstd::string::*;

verus! {

/// Number of occurrences of c in s.
pub open spec fn count_char(s: Seq<char>, c: char) -> nat
    decreases s.len(),
{
    if s.len() == 0 {
        0
    } else {
        count_char(s.drop_last(), c) + (if s.last() == c {
            1nat
        } else {
            0nat
        })
    }
}

/// Counts of a text, in order: every character (newlines included),
/// the ASCII blanks (spaces only, not tabs), and the lines — one more
/// than the newline count, so an empty text still reports one line.
pub fn file_count(contents: &str) -> (r: (u32, u32, u32))
    requires
        contents@.len() < u32::MAX,
    ensures
        r.0 == contents@.len(),
        r.1 == count_char(contents@, ' '),
        r.2 == 1 + count_char(contents@, '\n'),
{
    let len = contents.unicode_len();
    let mut characters: u32 = 0;
    let mut blanks: u32 = 0;
    let mut lines: u32 = 1;
    let mut i: usize = 0;
    while i < len
        invariant
            i <= len,
            len == contents@.len(),
            len < u32::MAX,
            characters == i,
            blanks <= i,
            lines <= i + 1,
            blanks == count_char(contents@.take(i as int), ' '),
            lines == 1 + count_char(contents@.take(i as int), '\n'),
        decreases len - i,
    {
        let c = contents.get_char(i);
        proof {
            assert(contents@.take(i as int + 1).drop_last() =~= contents@.take(i as int));
            assert(contents@.take(i as int + 1).last() == contents@[i as int]);
        }
        if c == '\n' {
            lines = lines + 1;
        } else if c == ' ' {
            blanks = blanks + 1;
        }
        characters = characters + 1;
        i = i + 1;
    }
    proof {
        assert(contents@.take(len as int) =~= contents@);
    }
    (characters, blanks, lines)
}

/// c is one of the ASCII whitespace characters that line input can
/// carry: space, tab, line feed, carriage return.
pub open spec fn is_space_char(c: char) -> bool {
    c == ' ' || c == '\t' || c == '\n' || c == '\r'
}

/// s with its leading whitespace removed.
pub open spec fn trim_left_spec(s: Seq<char>) -> Seq<char>
    decreases s.len(),
{
    if s.len() > 0 && is_space_char(s[0]) {
        trim_left_spec(s.subrange(1, s.len() as int))
    } else {
        s
    }
}

/// s with its trailing whitespace removed.
pub open spec fn trim_right_spec(s: Seq<char>) -> Seq<char>
    decreases s.len(),
{
    if s.len() > 0 && is_space_char(s.last()) {
        trim_right_spec(s.drop_last())
    } else {
        s
    }
}

/// s with both leading and trailing whitespace removed.
pub open spec fn trim_spec(s: Seq<char>) -> Seq<char> {
    trim_right_spec(trim_left_spec(s))
}

/// Dropping the leading whitespace keeps exactly the suffix that
/// starts at the first non-space position.
proof fn lemma_trim_left_at(s: Seq<char>, i: int)
    requires
        0 <= i <= s.len(),
        forall|j: int| 0 <= j < i ==> is_space_char(#[trigger] s[j]),
        i == s.len() || !is_space_char(s[i]),
    ensures
        trim_left_spec(s) == s.subrange(i, s.len() as int),
    decreases i,
{
    if i == 0 {
        assert(s.subrange(0, s.len() as int) =~= s);
    } else {
        let t = s.subrange(1, s.len() as int);
        assert forall|j: int| 0 <= j < i - 1 implies is_space_char(#[trigger] t[j]) by {
            assert(t[j] == s[j + 1]);
        }
        if i - 1 < t.len() {
            assert(t[i - 1] == s[i]);
        }
        lemma_trim_left_at(t, i - 1);
        assert(t.subrange(i - 1, t.len() as int) =~= s.subrange(i, s.len() as int));
    }
}

/// Dropping the trailing whitespace keeps exactly the prefix that
/// ends after the last non-space position.
proof fn lemma_trim_right_at(s: Seq<char>, i: int)
    requires
        0 <= i <= s.len(),
        forall|j: int| i <= j < s.len() ==> is_space_char(#[trigger] s[j]),
        i == 0 || !is_space_char(s[i - 1]),
    ensures
        trim_right_spec(s) == s.subrange(0, i),
    decreases s.len() - i,
{
    if i == s.len() {
        assert(s.subrange(0, i) =~= s);
    } else {
        let t = s.drop_last();
        assert forall|j: int| i <= j < t.len() implies is_space_char(#[trigger] t[j]) by {
            assert(t[j] == s[j]);
        }
        if i > 0 {
            assert(t[i - 1] == s[i - 1]);
        }
        lemma_trim_right_at(t, i);
        assert(t.subrange(0, i) =~= s.subrange(0, i));
    }
}

/// The substring of s with leading and trailing whitespace removed.
pub fn trim<'a>(s: &'a str) -> (r: &'a str)
    ensures
        r@ == trim_spec(s@),
{
    let len = s.unicode_len();
    let mut start: usize = 0;
    loop
        invariant
            start <= len,
            len == s@.len(),
            forall|j: int| 0 <= j < start ==> is_space_char(#[trigger] s@[j]),
        ensures
            start <= len,
            len == s@.len(),
            forall|j: int| 0 <= j < start ==> is_space_char(#[trigger] s@[j]),
            start == len || !is_space_char(s@[start as int]),
        decreases len - start,
    {
        if start >= len {
            break;
        }
        let c = s.get_char(start);
        if !(c == ' ' || c == '\t' || c == '\n' || c == '\r') {
            break;
        }
        start = start + 1;
    }
    let mut end: usize = len;
    loop
        invariant
            start <= end <= len,
            len == s@.len(),
            forall|j: int| end <= j < len ==> is_space_char(#[trigger] s@[j]),
        ensures
            start <= end <= len,
            forall|j: int| end <= j < len ==> is_space_char(#[trigger] s@[j]),
            end == start || !is_space_char(s@[end - 1]),
        decreases end,
    {
        if end <= start {
            break;
        }
        let c = s.get_char(end - 1);
        if !(c == ' ' || c == '\t' || c == '\n' || c == '\r') {
            break;
        }
        end = end - 1;
    }
    let r = s.substring_char(start, end);
    proof {
        let left = s@.subrange(start as int, len as int);
        if start == len || !is_space_char(s@[start as int]) {
            lemma_trim_left_at(s@, start as int);
        }
        assert forall|j: int|
            end - start <= j < left.len() implies is_space_char(#[trigger] left[j]) by {
            assert(left[j] == s@[start + j]);
        }
        if end > start {
            assert(left[end - start - 1] == s@[end - 1]);
        }
        lemma_trim_right_at(left, end - start);
        assert(left.subrange(0, end - start) =~= s@.subrange(start as int, end as int));
    }
    r
}

} // verus!
