//! Layout of text in a terminal: the columns that text takes, and the
//! wrapping of paragraphs into lines of a given width.

use vstd::prelude::*;
use vstd::slice::slice_subrange;
use crate::cursor::{chars_before, is_boundary, lemma_located_boundary, locate};
use crate::lines::{find_line_end, lemma_line_end_bounds, line_end};
use crate::strings::{
    byte_len, chars_of, lemma_byte_len_push, lemma_char_len, lemma_encode_concat,
    lemma_views_concat, lemma_views_push, string_of, views_of,
};

verus! {

/// Columns that one character takes: one for ASCII, two for any other.
pub open spec fn char_width(c: char) -> int {
    if (c as u32) < 0x80 {
        1
    } else {
        2
    }
}

/// Columns that a text takes.
pub open spec fn display_width(s: Seq<char>) -> int
    decreases s.len(),
{
    if s.len() == 0 {
        0
    } else {
        display_width(s.drop_last()) + char_width(s.last())
    }
}

/// Number of characters at the start of `s` that fit together in `room`
/// columns.
pub open spec fn fitting(s: Seq<char>, room: int) -> int
    decreases s.len(),
{
    if s.len() == 0 || char_width(s[0]) > room {
        0
    } else {
        1 + fitting(s.drop_first(), room - char_width(s[0]))
    }
}

/// Number of characters in the first line of the text `s`, which is not
/// empty: its first character, whatever its width, then those that still
/// fit in `width` columns.
pub open spec fn first_line_len(s: Seq<char>, width: int) -> int {
    1 + fitting(s.drop_first(), width - char_width(s[0]))
}

/// The lines of `s`, each as long as it can be.
pub open spec fn wrapped(s: Seq<char>, width: int) -> Seq<Seq<char>>
    decreases s.len(),
{
    if s.len() == 0 {
        Seq::empty()
    } else {
        proof {
            lemma_first_line_bounds(s, width);
        }
        let n = first_line_len(s, width);
        seq![s.take(n)] + wrapped(s.skip(n), width)
    }
}

/// The lines of one paragraph: the paragraph itself where the width is
/// zero, one empty line for an empty paragraph, else the paragraph wrapped.
pub open spec fn wrapped_paragraph(paragraph: Seq<char>, width: int) -> Seq<Seq<char>> {
    if width == 0 || paragraph.len() == 0 {
        seq![paragraph]
    } else {
        wrapped(paragraph, width)
    }
}

/// The lines of a text: those of its paragraphs, one paragraph after the
/// other. Line feeds part the paragraphs.
pub open spec fn wrapped_text(text: Seq<char>, width: int) -> Seq<Seq<char>>
    decreases text.len(),
{
    proof {
        lemma_line_end_bounds(text);
    }
    let end = line_end(text);
    if end >= text.len() {
        wrapped_paragraph(text, width)
    } else {
        wrapped_paragraph(text.take(end), width) + wrapped_text(text.skip(end + 1), width)
    }
}

/// No more characters fit than there are.
pub proof fn lemma_fitting_bounds(s: Seq<char>, room: int)
    ensures
        0 <= fitting(s, room) <= s.len(),
    decreases s.len(),
{
    if s.len() == 0 || char_width(s[0]) > room {
    } else {
        lemma_fitting_bounds(s.drop_first(), room - char_width(s[0]));
    }
}

/// The first line takes at least one character and no more than there are.
pub proof fn lemma_first_line_bounds(s: Seq<char>, width: int)
    requires
        s.len() > 0,
    ensures
        0 < first_line_len(s, width) <= s.len(),
{
    lemma_fitting_bounds(s.drop_first(), width - char_width(s[0]));
}

/// A text takes no more columns than bytes.
pub proof fn lemma_width_within_bytes(s: Seq<char>)
    ensures
        0 <= display_width(s) <= byte_len(s),
        s.len() <= display_width(s),
    decreases s.len(),
{
    if s.len() > 0 {
        lemma_width_within_bytes(s.drop_last());
        lemma_byte_len_push(s.drop_last(), s.last());
        lemma_char_len(s.last());
        assert(s.drop_last().push(s.last()) =~= s);
    }
}

/// A prefix of a text takes no more bytes than the text.
pub proof fn lemma_prefix_bytes(s: Seq<char>, n: int)
    requires
        0 <= n <= s.len(),
    ensures
        byte_len(s.take(n)) <= byte_len(s),
{
    lemma_encode_concat(s.take(n), s.skip(n));
    assert(s.take(n) + s.skip(n) =~= s);
}

/// Columns that `c` takes.
pub fn width_of(c: char) -> (w: usize)
    ensures
        w == char_width(c),
{
    if (c as u32) < 0x80 {
        1
    } else {
        2
    }
}

/// Columns that `text` takes in a terminal.
pub fn calculate_display_width(text: &str) -> (width: usize)
    ensures
        width == display_width(text@),
{
    let bytes: usize = text.as_bytes().len();
    assert(bytes == byte_len(text@));
    let chars = chars_of(text);
    let mut width: usize = 0;
    let mut i: usize = 0;
    while i < chars.len()
        invariant
            i <= chars@.len(),
            chars@ == text@,
            byte_len(text@) <= usize::MAX,
            width == display_width(chars@.take(i as int)),
        decreases chars@.len() - i,
    {
        proof {
            let next = chars@.take(i + 1);
            assert(next.drop_last() =~= chars@.take(i as int));
            lemma_width_within_bytes(next);
            lemma_prefix_bytes(chars@, i + 1);
        }
        width = width + width_of(chars[i]);
        i = i + 1;
    }
    assert(chars@.take(chars@.len() as int) =~= chars@);
    width
}

/// End of the line that starts at `start` in the paragraph `text[..to]`,
/// wrapped at `width` columns.
pub fn line_break(text: &[char], start: usize, to: usize, width: usize) -> (end: usize)
    requires
        start < to <= text@.len(),
    ensures
        start < end <= to,
        end - start == first_line_len(text@.subrange(start as int, to as int), width as int),
{
    let ghost line = text@.subrange(start as int, to as int);
    let mut used: usize = width_of(text[start]);
    let mut end: usize = start + 1;
    assert(line.drop_first() =~= text@.subrange(end as int, to as int));
    loop
        invariant_except_break
            first_line_len(line, width as int) == (end - start) + fitting(
                text@.subrange(end as int, to as int),
                width - used,
            ),
        invariant
            start < end <= to <= text@.len(),
            1 <= used <= 2 || used <= width,
            line == text@.subrange(start as int, to as int),
        ensures
            end - start == first_line_len(line, width as int),
        decreases to - end,
    {
        if end >= to {
            break;
        }
        let w = width_of(text[end]);
        let ghost rest = text@.subrange(end as int, to as int);
        assert(rest[0] == text@[end as int]);
        if w > width || used > width - w {
            break;
        }
        assert(rest.drop_first() =~= text@.subrange(end + 1, to as int));
        used = used + w;
        end = end + 1;
    }
    end
}

/// The lines of the paragraph `text[from..to]`, wrapped at `width` columns,
/// where `width` is not zero and the paragraph not empty.
fn wrap_chars(text: &[char], from: usize, to: usize, width: usize) -> (lines: Vec<String>)
    requires
        from < to <= text@.len(),
    ensures
        views_of(lines@) == wrapped(text@.subrange(from as int, to as int), width as int),
{
    let ghost paragraph = text@.subrange(from as int, to as int);
    let mut lines: Vec<String> = Vec::new();
    let mut start: usize = from;
    assert(views_of(lines@) =~= Seq::<Seq<char>>::empty());
    assert(views_of(lines@) + wrapped(paragraph, width as int) =~= wrapped(
        paragraph,
        width as int,
    ));
    while start < to
        invariant
            from <= start <= to <= text@.len(),
            paragraph == text@.subrange(from as int, to as int),
            wrapped(paragraph, width as int) == views_of(lines@) + wrapped(
                text@.subrange(start as int, to as int),
                width as int,
            ),
        decreases to - start,
    {
        let ghost here = text@.subrange(start as int, to as int);
        let end = line_break(text, start, to, width);
        let line = string_of(slice_subrange(text, start, end));
        proof {
            assert(here.take(end - start) =~= text@.subrange(start as int, end as int));
            assert(here.skip(end - start) =~= text@.subrange(end as int, to as int));
            lemma_views_push(lines@, line);
            let later = wrapped(text@.subrange(end as int, to as int), width as int);
            assert((views_of(lines@) + seq![line@]) + later =~= views_of(lines@) + (seq![line@]
                + later));
        }
        lines.push(line);
        start = end;
    }
    assert(views_of(lines@) + Seq::<Seq<char>>::empty() =~= views_of(lines@));
    lines
}

/// The lines of the paragraph `text[from..to]` at `width` columns.
fn wrap_range(text: &[char], from: usize, to: usize, width: usize) -> (lines: Vec<String>)
    requires
        from <= to <= text@.len(),
    ensures
        views_of(lines@) == wrapped_paragraph(
            text@.subrange(from as int, to as int),
            width as int,
        ),
{
    if width == 0 || from == to {
        let mut lines: Vec<String> = Vec::new();
        let whole = string_of(slice_subrange(text, from, to));
        proof {
            lemma_views_push(lines@, whole);
            assert(views_of(lines@) =~= Seq::<Seq<char>>::empty());
            assert(Seq::<Seq<char>>::empty() + seq![whole@] =~= seq![whole@]);
        }
        lines.push(whole);
        lines
    } else {
        wrap_chars(text, from, to, width)
    }
}

/// Wraps one paragraph into lines of at most `width` columns. A character
/// wider than the whole width still gets a line of its own; with a width
/// of zero the paragraph is left as it is.
pub fn wrap_paragraph(paragraph: &str, width: usize) -> (lines: Vec<String>)
    ensures
        views_of(lines@) == wrapped_paragraph(paragraph@, width as int),
{
    let chars = chars_of(paragraph);
    assert(chars@.subrange(0, chars@.len() as int) =~= chars@);
    wrap_range(chars.as_slice(), 0, chars.len(), width)
}

/// Splits a text into its paragraphs at the line feeds and wraps each into
/// lines of at most `width` columns. An empty paragraph gives an empty line.
pub fn wrap_text(text: &str, width: usize) -> (lines: Vec<String>)
    ensures
        views_of(lines@) == wrapped_text(text@, width as int),
{
    let chars = chars_of(text);
    let mut lines: Vec<String> = Vec::new();
    let mut start: usize = 0;
    assert(views_of(lines@) =~= Seq::<Seq<char>>::empty());
    assert(chars@.skip(0) =~= chars@);
    assert(views_of(lines@) + wrapped_text(chars@, width as int) =~= wrapped_text(
        chars@,
        width as int,
    ));
    loop
        invariant_except_break
            wrapped_text(chars@, width as int) == views_of(lines@) + wrapped_text(
                chars@.skip(start as int),
                width as int,
            ),
        invariant
            start <= chars@.len(),
            chars@ == text@,
        ensures
            views_of(lines@) == wrapped_text(chars@, width as int),
        decreases chars@.len() - start,
    {
        let ghost here = chars@.skip(start as int);
        let ghost before = lines@;
        let end = find_line_end(chars.as_slice(), start);
        let mut more = wrap_range(chars.as_slice(), start, end, width);
        proof {
            lemma_views_concat(before, more@);
        }
        lines.append(&mut more);
        if end >= chars.len() {
            assert(here =~= chars@.subrange(start as int, end as int));
            break;
        }
        proof {
            assert(here.take(end - start) =~= chars@.subrange(start as int, end as int));
            assert(here.skip(end - start + 1) =~= chars@.skip(end + 1));
            let first = wrapped_paragraph(here.take(end - start), width as int);
            let later = wrapped_text(chars@.skip(end + 1), width as int);
            assert((views_of(before) + first) + later =~= views_of(before) + (first + later));
        }
        start = end + 1;
    }
    lines
}

/// Number of lines of the paragraph `text[from..to]` at `width` columns.
fn count_range(text: &[char], from: usize, to: usize, width: usize) -> (n: usize)
    requires
        from <= to <= text@.len(),
    ensures
        n == wrapped_paragraph(text@.subrange(from as int, to as int), width as int).len(),
        1 <= n,
        n <= to - from || n == 1,
{
    if width == 0 || from == to {
        return 1;
    }
    let ghost paragraph = text@.subrange(from as int, to as int);
    let mut n: usize = 0;
    let mut start: usize = from;
    while start < to
        invariant
            from <= start <= to <= text@.len(),
            n <= start - from,
            start > from ==> n > 0,
            wrapped(paragraph, width as int).len() == n + wrapped(
                text@.subrange(start as int, to as int),
                width as int,
            ).len(),
        decreases to - start,
    {
        let ghost here = text@.subrange(start as int, to as int);
        let end = line_break(text, start, to, width);
        proof {
            assert(here.skip(end - start) =~= text@.subrange(end as int, to as int));
        }
        n = n + 1;
        start = end;
    }
    n
}

/// Number of lines of `text` at `width` columns, if they are no more than
/// `cap`.
pub fn count_lines(text: &[char], width: usize, cap: usize) -> (n: Option<usize>)
    ensures
        match n {
            Some(lines) => lines == wrapped_text(text@, width as int).len(),
            None => wrapped_text(text@, width as int).len() > cap,
        },
        n is Some <==> wrapped_text(text@, width as int).len() <= cap,
{
    let mut n: usize = 0;
    let mut start: usize = 0;
    assert(text@.skip(0) =~= text@);
    loop
        invariant
            n <= cap,
            start <= text@.len(),
            wrapped_text(text@, width as int).len() == n + wrapped_text(
                text@.skip(start as int),
                width as int,
            ).len(),
        decreases text@.len() - start,
    {
        let ghost here = text@.skip(start as int);
        let end = find_line_end(text, start);
        let more = count_range(text, start, end, width);
        proof {
            assert(here.take(end - start) =~= text@.subrange(start as int, end as int));
            if end < text@.len() {
                assert(here.skip(end - start + 1) =~= text@.skip(end + 1));
            } else {
                assert(here =~= text@.subrange(start as int, end as int));
            }
        }
        if more > cap - n {
            return None;
        }
        n = n + more;
        if end >= text.len() {
            return Some(n);
        }
        start = end + 1;
    }
}

/// Number of lines that one paragraph takes at `width` columns.
pub fn calculate_paragraph_lines(paragraph: &str, width: usize) -> (n: usize)
    ensures
        n == wrapped_paragraph(paragraph@, width as int).len(),
{
    let chars = chars_of(paragraph);
    assert(chars@.subrange(0, chars@.len() as int) =~= chars@);
    count_range(chars.as_slice(), 0, chars.len(), width)
}

/// Number of lines that a text takes at `width` columns.
pub fn calculate_wrapped_lines(text: &str, width: usize) -> (n: usize)
    requires
        wrapped_text(text@, width as int).len() <= usize::MAX,
    ensures
        n == wrapped_text(text@, width as int).len(),
{
    let chars = chars_of(text);
    match count_lines(chars.as_slice(), width, usize::MAX) {
        Some(n) => n,
        // The number can be held: this arm is never taken.
        None => usize::MAX,
    }
}

/// Rows of the input area for `text` in a frame of `width` columns: the
/// lines of the text inside the two border columns, and two border rows,
/// but no less than three rows and no more than ten.
pub open spec fn input_height(text: Seq<char>, width: int) -> int {
    let inner = if width >= 2 {
        width - 2
    } else {
        0
    };
    let rows = wrapped_text(text, inner).len() as int + 2;
    if rows < 3 {
        3
    } else if rows > 10 {
        10
    } else {
        rows
    }
}

/// Rows that the input area needs for `text`, borders included.
pub fn calculate_input_height(text: &str, width: usize) -> (rows: usize)
    ensures
        rows == input_height(text@, width as int),
        3 <= rows <= 10,
{
    let inner: usize = if width >= 2 {
        width - 2
    } else {
        0
    };
    let chars = chars_of(text);
    match count_lines(chars.as_slice(), inner, 8) {
        Some(lines) => if lines + 2 < 3 {
            3
        } else {
            lines + 2
        },
        None => 10,
    }
}

/// The paragraphs of a text: what stands between its line feeds.
pub open spec fn paragraphs(text: Seq<char>) -> Seq<Seq<char>>
    decreases text.len(),
{
    proof {
        lemma_line_end_bounds(text);
    }
    let end = line_end(text);
    if end >= text.len() {
        seq![text]
    } else {
        seq![text.take(end)] + paragraphs(text.skip(end + 1))
    }
}

/// The texts of `parts` with one line feed between each two of them.
pub open spec fn joined(parts: Seq<Seq<char>>) -> Seq<char>
    decreases parts.len(),
{
    if parts.len() == 0 {
        Seq::empty()
    } else if parts.len() == 1 {
        parts[0]
    } else {
        parts[0] + seq!['\n'] + joined(parts.drop_first())
    }
}

/// The lines of each paragraph of a text, paragraph by paragraph.
pub open spec fn wrapped_paragraphs(text: Seq<char>, width: int) -> Seq<Seq<Seq<char>>> {
    paragraphs(text).map_values(|p: Seq<char>| wrapped_paragraph(p, width))
}

/// Wrapping breaks a paragraph and changes nothing else: its lines, put
/// one after the other, are the paragraph.
pub proof fn lemma_wrap_keeps_paragraph(paragraph: Seq<char>, width: int)
    ensures
        wrapped_paragraph(paragraph, width).flatten() == paragraph,
    decreases paragraph.len(),
{
    let lines = wrapped_paragraph(paragraph, width);
    if width == 0 || paragraph.len() == 0 {
        lines.lemma_flatten_one_element();
    } else {
        lemma_wrapped_flatten(paragraph, width);
    }
}

proof fn lemma_wrapped_flatten(s: Seq<char>, width: int)
    ensures
        wrapped(s, width).flatten() == s,
    decreases s.len(),
{
    if s.len() > 0 {
        let n = first_line_len(s, width);
        lemma_first_line_bounds(s, width);
        lemma_wrapped_flatten(s.skip(n), width);
        let lines = wrapped(s, width);
        assert(lines.drop_first() =~= wrapped(s.skip(n), width));
        assert(s.take(n) + s.skip(n) =~= s);
    }
}

/// The paragraphs of a text, joined by line feeds, are the text.
pub proof fn lemma_paragraphs_join(text: Seq<char>)
    ensures
        joined(paragraphs(text)) == text,
        paragraphs(text).len() > 0,
    decreases text.len(),
{
    let end = line_end(text);
    lemma_line_end_bounds(text);
    if end >= text.len() {
    } else {
        let rest = text.skip(end + 1);
        lemma_paragraphs_join(rest);
        let parts = paragraphs(text);
        assert(parts.drop_first() =~= paragraphs(rest));
        assert(text.take(end) + seq!['\n'] + rest =~= text);
    }
}

/// The lines of a text are the lines of its paragraphs, paragraph after
/// paragraph.
pub proof fn lemma_wrap_text_by_paragraph(text: Seq<char>, width: int)
    ensures
        wrapped_text(text, width) == wrapped_paragraphs(text, width).flatten(),
    decreases text.len(),
{
    let end = line_end(text);
    lemma_line_end_bounds(text);
    let groups = wrapped_paragraphs(text, width);
    if end >= text.len() {
        groups.lemma_flatten_one_element();
    } else {
        let rest = text.skip(end + 1);
        lemma_wrap_text_by_paragraph(rest, width);
        assert(groups.drop_first() =~= wrapped_paragraphs(rest, width));
    }
}

/// Wrapping a text and taking the inserted breaks out again gives the text
/// back, with its line feeds where they were: the lines of every paragraph
/// put together are that paragraph, and the paragraphs joined by line feeds
/// are the text.
pub proof fn lemma_unwrap_gives_text(text: Seq<char>, width: int)
    ensures
        wrapped_text(text, width) == wrapped_paragraphs(text, width).flatten(),
        joined(wrapped_paragraphs(text, width).map_values(|lines: Seq<Seq<char>>| lines.flatten()))
            == text,
{
    lemma_wrap_text_by_paragraph(text, width);
    lemma_paragraphs_join(text);
    let groups = wrapped_paragraphs(text, width);
    let rebuilt = groups.map_values(|lines: Seq<Seq<char>>| lines.flatten());
    assert forall|i: int| 0 <= i < rebuilt.len() implies rebuilt[i] == paragraphs(text)[i] by {
        lemma_wrap_keeps_paragraph(paragraphs(text)[i], width);
    }
    assert(rebuilt =~= paragraphs(text));
}

proof fn lemma_fitting_of_what_fits(s: Seq<char>, room: int)
    ensures
        fitting(s.take(fitting(s, room)), room) == fitting(s, room),
    decreases s.len(),
{
    lemma_fitting_bounds(s, room);
    let n = fitting(s, room);
    if s.len() == 0 || char_width(s[0]) > room {
        assert(s.take(n).len() == 0);
    } else {
        let rest = s.drop_first();
        lemma_fitting_of_what_fits(rest, room - char_width(s[0]));
        lemma_fitting_bounds(rest, room - char_width(s[0]));
        assert(s.take(n).drop_first() =~= rest.take(n - 1));
    }
}

proof fn lemma_rewrapped(s: Seq<char>, width: int, i: int)
    requires
        0 <= i < wrapped(s, width).len(),
    ensures
        wrapped(s, width)[i].len() > 0,
        wrapped(wrapped(s, width)[i], width) == seq![wrapped(s, width)[i]],
    decreases s.len(),
{
    let n = first_line_len(s, width);
    lemma_first_line_bounds(s, width);
    if i == 0 {
        let line = s.take(n);
        let tail = s.drop_first();
        lemma_fitting_of_what_fits(tail, width - char_width(s[0]));
        assert(line.drop_first() =~= tail.take(n - 1));
        assert(first_line_len(line, width) == n);
        assert(line.take(n) =~= line);
        assert(line.skip(n).len() == 0);
        assert(seq![line] + wrapped(line.skip(n), width) =~= seq![line]);
    } else {
        lemma_rewrapped(s.skip(n), width, i - 1);
    }
}

/// Wrapping again at the same width changes nothing: each line of a
/// wrapped paragraph, wrapped once more, is that one line.
pub proof fn lemma_rewrap_paragraph(paragraph: Seq<char>, width: int, i: int)
    requires
        0 <= i < wrapped_paragraph(paragraph, width).len(),
    ensures
        wrapped_paragraph(wrapped_paragraph(paragraph, width)[i], width) == seq![
            wrapped_paragraph(paragraph, width)[i],
        ],
{
    if width == 0 || paragraph.len() == 0 {
    } else {
        lemma_rewrapped(paragraph, width, i);
    }
}

/// Widths add up over the parts of a text.
pub proof fn lemma_width_concat(a: Seq<char>, b: Seq<char>)
    ensures
        display_width(a + b) == display_width(a) + display_width(b),
    decreases b.len(),
{
    if b.len() == 0 {
        assert(a + b =~= a);
    } else {
        lemma_width_concat(a, b.drop_last());
        assert((a + b).drop_last() =~= a + b.drop_last());
    }
}

proof fn lemma_fitting_width(s: Seq<char>, room: int)
    ensures
        fitting(s, room) > 0 ==> display_width(s.take(fitting(s, room))) <= room,
        display_width(s.take(fitting(s, room))) >= 0,
        fitting(s, room) < s.len() ==> display_width(s.take(fitting(s, room))) + char_width(
            s[fitting(s, room)],
        ) > room,
    decreases s.len(),
{
    lemma_fitting_bounds(s, room);
    let n = fitting(s, room);
    if s.len() == 0 || char_width(s[0]) > room {
        assert(s.take(0) =~= Seq::<char>::empty());
    } else {
        let rest = s.drop_first();
        lemma_fitting_width(rest, room - char_width(s[0]));
        lemma_fitting_bounds(rest, room - char_width(s[0]));
        lemma_width_concat(seq![s[0]], rest.take(n - 1));
        assert(seq![s[0]] + rest.take(n - 1) =~= s.take(n));
        assert(seq![s[0]].drop_last() =~= Seq::<char>::empty());
        assert(display_width(seq![s[0]]) == char_width(s[0])) by {
            reveal_with_fuel(display_width, 2);
        }
    }
}

proof fn lemma_wrapped_lines(s: Seq<char>, width: int, i: int)
    requires
        0 <= i < wrapped(s, width).len(),
    ensures
        display_width(wrapped(s, width)[i]) <= width || wrapped(s, width)[i].len() == 1,
        wrapped(s, width)[i].len() > 0,
        i + 1 < wrapped(s, width).len() ==> wrapped(s, width)[i + 1].len() > 0 && display_width(
            wrapped(s, width)[i],
        ) + char_width(wrapped(s, width)[i + 1][0]) > width,
    decreases s.len(),
{
    let n = first_line_len(s, width);
    lemma_first_line_bounds(s, width);
    let later = wrapped(s.skip(n), width);
    if i == 0 {
        let rest = s.drop_first();
        let room = width - char_width(s[0]);
        lemma_fitting_width(rest, room);
        lemma_width_concat(seq![s[0]], rest.take(n - 1));
        assert(seq![s[0]] + rest.take(n - 1) =~= s.take(n));
        assert(seq![s[0]].drop_last() =~= Seq::<char>::empty());
        assert(display_width(seq![s[0]]) == char_width(s[0])) by {
            reveal_with_fuel(display_width, 2);
        }
        if later.len() > 0 {
            lemma_first_line_bounds(s.skip(n), width);
            assert(later[0][0] == s[n]);
            assert(rest[n - 1] == s[n]);
        }
    } else {
        lemma_wrapped_lines(s.skip(n), width, i - 1);
    }
}

/// A line of a wrapped paragraph fits the width, unless it holds a single
/// character that is wider. It takes all that fits: the first character of
/// the next line would not fit behind it.
pub proof fn lemma_lines_fit_and_are_full(paragraph: Seq<char>, width: int, i: int)
    requires
        width > 0,
        0 <= i < wrapped_paragraph(paragraph, width).len(),
    ensures
        ({
            let lines = wrapped_paragraph(paragraph, width);
            &&& display_width(lines[i]) <= width || lines[i].len() == 1
            &&& i + 1 < lines.len() ==> lines[i + 1].len() > 0 && display_width(lines[i])
                + char_width(lines[i + 1][0]) > width
        }),
{
    if paragraph.len() > 0 {
        lemma_wrapped_lines(paragraph, width, i);
    }
}

/// A rectangle of the terminal, in cells.
#[derive(Debug, Clone, Copy, PartialEq, Eq, Structural)]
pub struct Rect {
    pub x: u16,
    pub y: u16,
    pub width: u16,
    pub height: u16,
}

/// What of `text` stands before a cursor at the byte offset `cursor`: all
/// of it, if the cursor is beyond its end.
pub open spec fn text_before(text: Seq<char>, cursor: int) -> Seq<char> {
    if cursor <= byte_len(text) {
        text.take(chars_before(text, cursor))
    } else {
        text
    }
}

/// Number of lines of `text` down to the cursor's, which counts.
pub open spec fn cursor_row(text: Seq<char>, cursor: int) -> int {
    paragraphs(text_before(text, cursor)).len() as int
}

/// Columns that stand before the cursor in its line.
pub open spec fn cursor_column(text: Seq<char>, cursor: int) -> int {
    display_width(paragraphs(text_before(text, cursor)).last())
}

/// A part of a text takes no more bytes than the text.
pub proof fn lemma_part_bytes(s: Seq<char>, from: int, to: int)
    requires
        0 <= from <= to <= s.len(),
    ensures
        byte_len(s.subrange(from, to)) <= byte_len(s),
{
    lemma_prefix_bytes(s, to);
    lemma_encode_concat(s.take(from), s.subrange(from, to));
    assert(s.take(from) + s.subrange(from, to) =~= s.take(to));
}

/// Columns that `text` takes.
pub fn width_of_chars(text: &[char]) -> (width: usize)
    requires
        byte_len(text@) <= usize::MAX,
    ensures
        width == display_width(text@),
{
    let mut width: usize = 0;
    let mut i: usize = 0;
    while i < text.len()
        invariant
            i <= text@.len(),
            byte_len(text@) <= usize::MAX,
            width == display_width(text@.take(i as int)),
        decreases text@.len() - i,
    {
        proof {
            let next = text@.take(i + 1);
            assert(next.drop_last() =~= text@.take(i as int));
            lemma_width_within_bytes(next);
            lemma_prefix_bytes(text@, i + 1);
        }
        width = width + width_of(text[i]);
        i = i + 1;
    }
    assert(text@.take(text@.len() as int) =~= text@);
    width
}

/// The cursor can be shown: it does not stand inside a character, and
/// its column and row can be held.
pub open spec fn cursor_can_be_shown(text: Seq<char>, cursor: int, area: Rect) -> bool {
    &&& cursor <= byte_len(text) ==> is_boundary(text, cursor)
    &&& area.x + 1 + cursor_column(text, cursor) <= u16::MAX
    &&& area.y + cursor_row(text, cursor) <= u16::MAX
}

/// Where the terminal's cursor stands for a cursor at the byte offset
/// `cursor_position` of `text`, which is shown inside the border of `area`:
/// the column and the row, if the cursor can be shown.
pub fn checked_multiline_cursor_position(text: &str, cursor_position: usize, area: Rect) -> (at:
    Option<(u16, u16)>)
    ensures
        at is Some <==> cursor_can_be_shown(text@, cursor_position as int, area),
        at matches Some(cell) ==> cell.0 == area.x + 1 + cursor_column(
            text@,
            cursor_position as int,
        ) && cell.1 == area.y + cursor_row(text@, cursor_position as int),
{
    let bytes = text.as_bytes().len();
    let chars = chars_of(text);
    let count = if cursor_position <= bytes {
        let found = locate(chars.as_slice(), cursor_position);
        proof {
            lemma_located_boundary(chars@, cursor_position as int);
        }
        if found.next_start != cursor_position {
            return None;
        }
        found.count
    } else {
        chars.len()
    };
    let before = slice_subrange(chars.as_slice(), 0, count);
    assert(before@ =~= text_before(text@, cursor_position as int)) by {
        assert(chars@.take(chars@.len() as int) =~= chars@);
    }
    let most_rows: usize = (u16::MAX - area.y) as usize;
    if most_rows < 1 {
        proof {
            lemma_paragraphs_join(before@);
        }
        return None;
    }
    let mut rows: usize = 1;
    let mut start: usize = 0;
    assert(before@.skip(0) =~= before@);
    loop
        invariant_except_break
            paragraphs(before@).len() + 1 == rows + paragraphs(before@.skip(start as int)).len(),
            paragraphs(before@).last() == paragraphs(before@.skip(start as int)).last(),
        invariant
            start <= before@.len(),
            1 <= rows <= most_rows,
            most_rows == u16::MAX - area.y,
            before@ == text_before(text@, cursor_position as int),
        ensures
            rows == paragraphs(before@).len(),
            paragraphs(before@).last() == before@.skip(start as int),
        decreases before@.len() - start,
    {
        let ghost here = before@.skip(start as int);
        let end = find_line_end(before, start);
        if end >= before.len() {
            break;
        }
        proof {
            assert(here.skip(end - start + 1) =~= before@.skip(end + 1));
            lemma_paragraphs_join(before@.skip(end + 1));
            let rest = paragraphs(before@.skip(end + 1));
            assert((seq![here.take(end - start)] + rest).last() == rest.last());
        }
        if rows >= most_rows {
            return None;
        }
        rows = rows + 1;
        start = end + 1;
    }
    let line = slice_subrange(before, start, before.len());
    proof {
        assert(line@ =~= before@.skip(start as int));
        lemma_part_bytes(chars@, 0, count as int);
        lemma_part_bytes(before@, start as int, before@.len() as int);
    }
    let column = width_of_chars(line);
    if area.x == u16::MAX || column > (u16::MAX - area.x - 1) as usize {
        return None;
    }
    Some((area.x + 1 + column as u16, area.y + rows as u16))
}

/// Where the terminal's cursor stands for a cursor at the byte offset
/// `cursor_position` of `text`, which is shown inside the border of `area`:
/// the column and the row.
pub fn calculate_multiline_cursor_position(text: &str, cursor_position: usize, area: Rect) -> (at: (
    u16,
    u16,
))
    requires
        cursor_can_be_shown(text@, cursor_position as int, area),
    ensures
        at.0 == area.x + 1 + cursor_column(text@, cursor_position as int),
        at.1 == area.y + cursor_row(text@, cursor_position as int),
{
    match checked_multiline_cursor_position(text, cursor_position, area) {
        Some(cell) => cell,
        // The cursor can be shown: this arm is never taken.
        None => (area.x, area.y),
    }
}

} // verus!
