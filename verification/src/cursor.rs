//! Positions in a line of text, counted in bytes of its UTF-8 encoding,
//! and the steps of a cursor that stops between characters only.

use vstd::prelude::*;
use vstd::utf8::*;
use crate::strings::{
    byte_len, char_len, lemma_byte_len_push, lemma_char_len, lemma_encode_concat, utf8_len,
};

verus! {

/// The byte offset at which character `k` of `s` starts. For `k` the number
/// of characters, it is the length of `s` in bytes.
pub open spec fn offset_of(s: Seq<char>, k: int) -> int {
    byte_len(s.take(k)) as int
}

/// `offset` lies between two characters of `s`, or at one of its ends.
pub open spec fn is_boundary(s: Seq<char>, offset: int) -> bool {
    exists|k: int| 0 <= k <= s.len() && offset_of(s, k) == offset
}

/// Number of characters of `s` that start before the byte offset `offset`.
pub open spec fn chars_before(s: Seq<char>, offset: int) -> int
    decreases s.len(),
{
    if s.len() == 0 || offset <= 0 {
        0
    } else {
        1 + chars_before(s.drop_first(), offset - char_len(s[0]))
    }
}

/// Where a cursor at `offset` stands after a step to the left: at the start
/// of the last character that starts before it, or where it was if there is
/// none.
pub open spec fn offset_left(s: Seq<char>, offset: int) -> int {
    let n = chars_before(s, offset);
    if n == 0 {
        offset
    } else {
        offset_of(s, n - 1)
    }
}

/// Where a cursor at `offset` stands after a step to the right: at the
/// start of the first character that starts after it, or at the end of the
/// text if there is none.
pub open spec fn offset_right(s: Seq<char>, offset: int) -> int {
    offset_of(s, chars_before(s, offset + 1))
}

/// The next character starts where this one ends.
pub proof fn lemma_offset_step(s: Seq<char>, k: int)
    requires
        0 <= k < s.len(),
    ensures
        offset_of(s, k + 1) == offset_of(s, k) + char_len(s[k]),
        1 <= char_len(s[k]) <= 4,
{
    lemma_byte_len_push(s.take(k), s[k]);
    assert(s.take(k).push(s[k]) =~= s.take(k + 1));
    lemma_char_len(s[k]);
}

/// Later characters start at greater offsets.
pub proof fn lemma_offsets_grow(s: Seq<char>, i: int, j: int)
    requires
        0 <= i <= j <= s.len(),
    ensures
        offset_of(s, i) <= offset_of(s, j),
        i < j ==> offset_of(s, i) < offset_of(s, j),
        offset_of(s, 0) == 0,
        offset_of(s, s.len() as int) == byte_len(s),
    decreases j - i,
{
    assert(s.take(0) =~= Seq::<char>::empty());
    assert(s.take(s.len() as int) =~= s);
    if i < j {
        lemma_offsets_grow(s, i, j - 1);
        lemma_offset_step(s, j - 1);
    }
}

proof fn lemma_offset_of_rest(s: Seq<char>, k: int)
    requires
        0 < k <= s.len(),
    ensures
        offset_of(s, k) == char_len(s[0]) + offset_of(s.drop_first(), k - 1),
{
    assert(s.take(k).drop_first() =~= s.drop_first().take(k - 1));
}

/// Before the start of character `k` start `k` characters; one byte later,
/// character `k` has started too, if there is one.
pub proof fn lemma_chars_before_offset(s: Seq<char>, k: int)
    requires
        0 <= k <= s.len(),
    ensures
        chars_before(s, offset_of(s, k)) == k,
        chars_before(s, offset_of(s, k) + 1) == if k < s.len() {
            k + 1
        } else {
            k
        },
    decreases s.len(),
{
    lemma_offsets_grow(s, 0, k);
    if k == 0 {
        if s.len() > 0 {
            lemma_char_len(s[0]);
            assert(chars_before(s.drop_first(), 1 - char_len(s[0])) == 0);
        }
    } else {
        lemma_char_len(s[0]);
        lemma_offset_of_rest(s, k);
        lemma_chars_before_offset(s.drop_first(), k - 1);
    }
}

/// A step to the left and then one to the right brings a cursor that stands
/// between characters, and not at the start, back to where it was.
pub proof fn lemma_left_then_right(s: Seq<char>, offset: int)
    requires
        is_boundary(s, offset),
        offset > 0,
    ensures
        offset_right(s, offset_left(s, offset)) == offset,
        is_boundary(s, offset_left(s, offset)),
        offset_left(s, offset) < offset,
{
    let k = choose|k: int| 0 <= k <= s.len() && offset_of(s, k) == offset;
    lemma_offsets_grow(s, 0, k);
    lemma_chars_before_offset(s, k);
    lemma_chars_before_offset(s, k - 1);
    lemma_offsets_grow(s, k - 1, k);
}

/// A step to the right and then one to the left brings a cursor that stands
/// between characters, and not at the end, back to where it was.
pub proof fn lemma_right_then_left(s: Seq<char>, offset: int)
    requires
        is_boundary(s, offset),
        offset < byte_len(s),
    ensures
        offset_left(s, offset_right(s, offset)) == offset,
        is_boundary(s, offset_right(s, offset)),
        offset < offset_right(s, offset),
{
    let k = choose|k: int| 0 <= k <= s.len() && offset_of(s, k) == offset;
    lemma_offsets_grow(s, k, s.len() as int);
    lemma_chars_before_offset(s, k);
    lemma_chars_before_offset(s, k + 1);
    lemma_offsets_grow(s, k, k + 1);
}

/// A cursor that steps left or right stops between characters, wherever it
/// stood before.
pub proof fn lemma_steps_stop_on_boundaries(s: Seq<char>, offset: int)
    ensures
        chars_before(s, offset) > 0 ==> is_boundary(s, offset_left(s, offset)),
        is_boundary(s, offset_right(s, offset)),
        0 <= chars_before(s, offset) <= s.len(),
{
    lemma_chars_before_bounds(s, offset);
    lemma_chars_before_bounds(s, offset + 1);
}

/// No more characters start before an offset than there are.
pub proof fn lemma_chars_before_bounds(s: Seq<char>, offset: int)
    ensures
        0 <= chars_before(s, offset) <= s.len(),
    decreases s.len(),
{
    if s.len() == 0 || offset <= 0 {
    } else {
        lemma_chars_before_bounds(s.drop_first(), offset - char_len(s[0]));
    }
}

/// What a walk along a text up to a byte offset finds.
pub struct Located {
    /// Number of characters that start before the offset.
    pub count: usize,
    /// Where the last of them starts, or zero if there is none.
    pub last_start: usize,
    /// Where the character after them starts, or the text ends.
    pub next_start: usize,
}

/// Walks along `text` up to the byte offset `limit`.
pub fn locate(text: &[char], limit: usize) -> (found: Located)
    requires
        byte_len(text@) <= usize::MAX,
    ensures
        found.count == chars_before(text@, limit as int),
        found.count <= text@.len(),
        found.next_start == offset_of(text@, found.count as int),
        found.count > 0 ==> found.last_start == offset_of(text@, found.count - 1),
        found.count == 0 ==> found.last_start == 0,
{
    let mut count: usize = 0;
    let mut last_start: usize = 0;
    let mut next_start: usize = 0;
    proof {
        lemma_offsets_grow(text@, 0, 0);
        assert(text@.skip(0) =~= text@);
    }
    while count < text.len() && next_start < limit
        invariant
            count <= text@.len(),
            byte_len(text@) <= usize::MAX,
            next_start == offset_of(text@, count as int),
            count > 0 ==> last_start == offset_of(text@, count - 1),
            count == 0 ==> last_start == 0,
            chars_before(text@, limit as int) == count + chars_before(
                text@.skip(count as int),
                limit - next_start,
            ),
        decreases text@.len() - count,
    {
        proof {
            lemma_offset_step(text@, count as int);
            lemma_offsets_grow(text@, count + 1, text@.len() as int);
            assert(text@.skip(count as int).drop_first() =~= text@.skip(count + 1));
        }
        last_start = next_start;
        next_start = next_start + utf8_len(text[count]);
        count = count + 1;
    }
    Located { count, last_start, next_start }
}

/// At the end of a text and after it, all its characters have started.
pub proof fn lemma_chars_before_end(s: Seq<char>, offset: int)
    requires
        offset >= byte_len(s),
    ensures
        chars_before(s, offset) == s.len(),
    decreases s.len(),
{
    if s.len() > 0 {
        lemma_char_len(s[0]);
        lemma_chars_before_end(s.drop_first(), offset - char_len(s[0]));
    }
}

/// A text with one more character is longer by that character's bytes,
/// wherever the character is put in.
pub proof fn lemma_byte_len_insert(s: Seq<char>, k: int, c: char)
    requires
        0 <= k <= s.len(),
    ensures
        byte_len(s.insert(k, c)) == byte_len(s) + char_len(c),
        offset_of(s.insert(k, c), k) == offset_of(s, k),
        offset_of(s.insert(k, c), k + 1) == offset_of(s, k) + char_len(c),
{
    let longer = s.insert(k, c);
    assert(longer.take(k) =~= s.take(k));
    assert(longer.take(k + 1) =~= s.take(k).push(c));
    lemma_byte_len_push(s.take(k), c);
    lemma_encode_concat(s.take(k).push(c), s.skip(k));
    lemma_encode_concat(s.take(k), s.skip(k));
    assert(s.take(k).push(c) + s.skip(k) =~= longer);
    assert(s.take(k) + s.skip(k) =~= s);
}

/// A text without one of its characters keeps what stood before it where
/// it was.
pub proof fn lemma_offset_remove(s: Seq<char>, k: int)
    requires
        0 <= k < s.len(),
    ensures
        offset_of(s.remove(k), k) == offset_of(s, k),
{
    assert(s.remove(k).take(k) =~= s.take(k));
}

/// The character after those that start before an offset starts at that
/// offset exactly if the offset lies between characters.
pub proof fn lemma_located_boundary(s: Seq<char>, offset: int)
    requires
        0 <= offset,
    ensures
        is_boundary(s, offset) <==> offset_of(s, chars_before(s, offset)) == offset,
{
    lemma_chars_before_bounds(s, offset);
    if is_boundary(s, offset) {
        let k = choose|k: int| 0 <= k <= s.len() && offset_of(s, k) == offset;
        lemma_chars_before_offset(s, k);
    }
}

} // verus!
