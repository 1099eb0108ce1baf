//! Lines of a text buffer: where a line ends, and what is left of a line
//! once the white space around it is taken away.

use vstd::prelude::*;

verus! {

/// The characters that Unicode gives the property White_Space.
pub open spec fn is_white_space(c: char) -> bool {
    let code = c as u32;
    ||| 0x09 <= code <= 0x0d
    ||| code == 0x20
    ||| code == 0x85
    ||| code == 0xa0
    ||| code == 0x1680
    ||| 0x2000 <= code <= 0x200a
    ||| code == 0x2028
    ||| code == 0x2029
    ||| code == 0x202f
    ||| code == 0x205f
    ||| code == 0x3000
}

/// Number of white-space characters at the start of `s`.
pub open spec fn leading_white(s: Seq<char>) -> int
    decreases s.len(),
{
    if s.len() > 0 && is_white_space(s[0]) {
        1 + leading_white(s.drop_first())
    } else {
        0
    }
}

/// Number of white-space characters at the end of `s`.
pub open spec fn trailing_white(s: Seq<char>) -> int
    decreases s.len(),
{
    if s.len() > 0 && is_white_space(s.last()) {
        1 + trailing_white(s.drop_last())
    } else {
        0
    }
}

/// `s` without the white space at its end.
pub open spec fn trim_end(s: Seq<char>) -> Seq<char> {
    s.take(s.len() - trailing_white(s))
}

/// `s` without the white space at its start and at its end.
pub open spec fn trim(s: Seq<char>) -> Seq<char> {
    let t = trim_end(s);
    t.skip(leading_white(t))
}

/// Index of the first line feed in `s`, or the length of `s` if it has none.
pub open spec fn line_end(s: Seq<char>) -> int
    decreases s.len(),
{
    if s.len() == 0 || s[0] == '\n' {
        0
    } else {
        1 + line_end(s.drop_first())
    }
}

/// `p` stands at the start of `s`.
pub open spec fn has_prefix(s: Seq<char>, p: Seq<char>) -> bool {
    p.len() <= s.len() && s.take(p.len() as int) == p
}

/// Where `n` white-space characters are followed by another character or
/// by the end, `n` is the number of white-space characters at the start.
pub proof fn lemma_leading_white(s: Seq<char>, n: int)
    requires
        0 <= n <= s.len(),
        forall|i: int| 0 <= i < n ==> is_white_space(#[trigger] s[i]),
        n < s.len() ==> !is_white_space(s[n]),
    ensures
        leading_white(s) == n,
    decreases n,
{
    if n > 0 {
        let rest = s.drop_first();
        assert forall|i: int| 0 <= i < n - 1 implies is_white_space(#[trigger] rest[i]) by {
            assert(rest[i] == s[i + 1]);
        }
        lemma_leading_white(rest, n - 1);
    }
}

/// Where `n` white-space characters follow another character or the
/// start, `n` is the number of white-space characters at the end.
pub proof fn lemma_trailing_white(s: Seq<char>, n: int)
    requires
        0 <= n <= s.len(),
        forall|i: int| s.len() - n <= i < s.len() ==> is_white_space(#[trigger] s[i]),
        n < s.len() ==> !is_white_space(s[s.len() - n - 1]),
    ensures
        trailing_white(s) == n,
    decreases n,
{
    if n > 0 {
        let rest = s.drop_last();
        assert forall|i: int| rest.len() - (n - 1) <= i < rest.len() implies is_white_space(
            #[trigger] rest[i],
        ) by {
            assert(rest[i] == s[i]);
        }
        lemma_trailing_white(rest, n - 1);
    }
}

/// Where `n` characters that are no line feeds are followed by a line
/// feed or by the end, the first line ends at `n`.
pub proof fn lemma_line_end(s: Seq<char>, n: int)
    requires
        0 <= n <= s.len(),
        forall|i: int| 0 <= i < n ==> #[trigger] s[i] != '\n',
        n < s.len() ==> s[n] == '\n',
    ensures
        line_end(s) == n,
    decreases n,
{
    if n > 0 {
        let rest = s.drop_first();
        assert forall|i: int| 0 <= i < n - 1 implies #[trigger] rest[i] != '\n' by {
            assert(rest[i] == s[i + 1]);
        }
        lemma_line_end(rest, n - 1);
    }
}

/// The end of the first line lies inside the text, and no line feed comes
/// before it.
pub proof fn lemma_line_end_bounds(s: Seq<char>)
    ensures
        0 <= line_end(s) <= s.len(),
        forall|i: int| 0 <= i < line_end(s) ==> #[trigger] s[i] != '\n',
        line_end(s) < s.len() ==> s[line_end(s)] == '\n',
    decreases s.len(),
{
    if s.len() == 0 || s[0] == '\n' {
    } else {
        let rest = s.drop_first();
        lemma_line_end_bounds(rest);
        assert forall|i: int| 0 <= i < line_end(s) implies #[trigger] s[i] != '\n' by {
            if i > 0 {
                assert(s[i] == rest[i - 1]);
            }
        }
    }
}

/// Whether `c` has the Unicode property White_Space.
pub fn white_space(c: char) -> (r: bool)
    ensures
        r == is_white_space(c),
{
    let code: u32 = c as u32;
    (0x09 <= code && code <= 0x0d) || code == 0x20 || code == 0x85 || code == 0xa0 || code
        == 0x1680 || (0x2000 <= code && code <= 0x200a) || code == 0x2028 || code == 0x2029 || code
        == 0x202f || code == 0x205f || code == 0x3000
}

/// The bounds of `text[from..to]` once the white space around it is taken
/// away: it is `text[r.0..r.1]`.
pub fn trim_bounds(text: &[char], from: usize, to: usize) -> (r: (usize, usize))
    requires
        from <= to <= text@.len(),
    ensures
        from <= r.0 <= r.1 <= to,
        text@.subrange(r.0 as int, r.1 as int) == trim(text@.subrange(from as int, to as int)),
{
    let ghost line = text@.subrange(from as int, to as int);
    let mut end: usize = to;
    while end > from && white_space(text[end - 1])
        invariant
            from <= end <= to <= text@.len(),
            forall|i: int| end <= i < to ==> is_white_space(#[trigger] text@[i]),
        decreases end,
    {
        end = end - 1;
    }
    proof {
        assert forall|i: int| line.len() - (to - end) <= i < line.len() implies is_white_space(
            #[trigger] line[i],
        ) by {
            assert(line[i] == text@[from + i]);
        }
        lemma_trailing_white(line, to - end);
    }
    let ghost kept = trim_end(line);
    assert(kept =~= text@.subrange(from as int, end as int));
    let mut start: usize = from;
    while start < end && white_space(text[start])
        invariant
            from <= start <= end <= text@.len(),
            forall|i: int| from <= i < start ==> is_white_space(#[trigger] text@[i]),
        decreases end - start,
    {
        start = start + 1;
    }
    proof {
        assert forall|i: int| 0 <= i < start - from implies is_white_space(#[trigger] kept[i]) by {
            assert(kept[i] == text@[from + i]);
        }
        lemma_leading_white(kept, start - from);
        assert(kept.skip(start - from) =~= text@.subrange(start as int, end as int));
    }
    (start, end)
}

/// Index of the first line feed at or after `from`, or the length of `text`
/// if there is none.
pub fn find_line_end(text: &[char], from: usize) -> (end: usize)
    requires
        from <= text@.len(),
    ensures
        from <= end <= text@.len(),
        end == from + line_end(text@.skip(from as int)),
{
    let mut end: usize = from;
    while end < text.len() && text[end] != '\n'
        invariant
            from <= end <= text@.len(),
            forall|i: int| from <= i < end ==> #[trigger] text@[i] != '\n',
        decreases text@.len() - end,
    {
        end = end + 1;
    }
    proof {
        let rest = text@.skip(from as int);
        assert forall|i: int| 0 <= i < end - from implies #[trigger] rest[i] != '\n' by {
            assert(rest[i] == text@[from + i]);
        }
        lemma_line_end(rest, end - from);
    }
    end
}

/// Whether the characters of `prefix` stand at `text[from..]`, inside
/// `text[from..to]`.
pub fn starts_with(text: &[char], from: usize, to: usize, prefix: &[char]) -> (r: bool)
    requires
        from <= to <= text@.len(),
    ensures
        r == has_prefix(text@.subrange(from as int, to as int), prefix@),
{
    let ghost line = text@.subrange(from as int, to as int);
    if prefix.len() > to - from {
        return false;
    }
    let mut i: usize = 0;
    while i < prefix.len()
        invariant
            i <= prefix@.len() <= to - from,
            from <= to <= text@.len(),
            line == text@.subrange(from as int, to as int),
            forall|j: int| 0 <= j < i ==> text@[from + j] == #[trigger] prefix@[j],
        decreases prefix@.len() - i,
    {
        if text[from + i] != prefix[i] {
            proof {
                let head = line.take(prefix@.len() as int);
                assert(head[i as int] == text@[from + i]);
            }
            return false;
        }
        i = i + 1;
    }
    assert(line.take(prefix@.len() as int) =~= prefix@);
    true
}

} // verus!
