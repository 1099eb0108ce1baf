//! The decoder of a streamed reply: bytes come in chunks cut anywhere, and
//! go out as the fragments of text that the complete lines among them carry.

use vstd::prelude::*;
use vstd::slice::slice_subrange;
use vstd::string::StringExecFns;
use crate::json::{delta_content, delta_content_of, json_of, json_parse, parse_document, Json};
use crate::lines::{
    find_line_end, has_prefix, lemma_line_end, lemma_line_end_bounds, line_end, starts_with, trim,
    trim_bounds,
};
use crate::strings::{chars_of, lemma_views_push, string_of, views_of};
use crate::utf8::{decode_prefix, decoded_text, lemma_split_decodes_the_same, undecoded_tail};
use vstd::utf8::{decode_utf8, valid_utf8};

verus! {

/// What a line of the stream is, by its framing alone.
pub enum Frame {
    /// Not a data line: it carries nothing.
    Other,
    /// The data line that ends the stream.
    Done,
    /// A data line, with what follows its prefix.
    Payload(String),
}

/// A frame, with the text of its payload.
pub enum FrameView {
    Other,
    Done,
    Payload(Seq<char>),
}

impl View for Frame {
    type V = FrameView;

    open spec fn view(&self) -> FrameView {
        match self {
            Frame::Other => FrameView::Other,
            Frame::Done => FrameView::Done,
            Frame::Payload(data) => FrameView::Payload(data@),
        }
    }
}

/// The prefix that marks a data line.
pub open spec fn data_prefix() -> Seq<char> {
    seq!['d', 'a', 't', 'a', ':', ' ']
}

/// The payload that ends the stream.
pub open spec fn done_marker() -> Seq<char> {
    seq!['[', 'D', 'O', 'N', 'E', ']']
}

/// The frame that a line holds: the line is trimmed, and counts as a data
/// line if the prefix then stands at its start.
pub open spec fn frame_of(line: Seq<char>) -> FrameView {
    let trimmed = trim(line);
    if has_prefix(trimmed, data_prefix()) {
        let data = trimmed.skip(6);
        if data == done_marker() {
            FrameView::Done
        } else {
            FrameView::Payload(data)
        }
    } else {
        FrameView::Other
    }
}

/// What the payload of a data line yields.
pub enum Yield {
    /// A fragment of the reply, never empty.
    Fragment(String),
    /// A record without text for the reply.
    Nothing,
    /// Not a JSON document.
    Malformed,
}

/// A yield, with the text of its fragment.
pub enum YieldView {
    Fragment(Seq<char>),
    Nothing,
    Malformed,
}

impl View for Yield {
    type V = YieldView;

    open spec fn view(&self) -> YieldView {
        match self {
            Yield::Fragment(text) => YieldView::Fragment(text@),
            Yield::Nothing => YieldView::Nothing,
            Yield::Malformed => YieldView::Malformed,
        }
    }
}

/// What a payload yields: the text at `choices[0].delta.content` of the
/// document read from it, unless that text is missing or empty.
pub open spec fn yield_of(data: Seq<char>) -> YieldView {
    match json_parse(data) {
        None => YieldView::Malformed,
        Some(doc) => yield_of_document(doc),
    }
}

/// What a record yields: the text at `choices[0].delta.content`, unless it
/// is missing or empty.
pub open spec fn yield_of_document(doc: Json) -> YieldView {
    match delta_content_of(doc) {
        Some(content) => if content.len() > 0 {
            YieldView::Fragment(content)
        } else {
            YieldView::Nothing
        },
        None => YieldView::Nothing,
    }
}

/// What the complete lines of a buffer yield, and what is left of the buffer.
pub struct Drained {
    /// The fragments, in the order of their lines.
    pub fragments: Seq<Seq<char>>,
    /// The payloads that were not JSON documents, in the order of their lines.
    pub malformed: Seq<Seq<char>>,
    /// Whether the line that ends the stream was met.
    pub done: bool,
    /// What was not looked at: the lines after the one that ends the stream,
    /// or else the last, incomplete line.
    pub rest: Seq<char>,
}

/// Takes the complete lines off the front of `buffer`, one by one, up to
/// and including the line that ends the stream, if there is one.
pub open spec fn drain_lines(buffer: Seq<char>) -> Drained
    decreases buffer.len(),
{
    proof {
        lemma_line_end_bounds(buffer);
    }
    let end = line_end(buffer);
    if end >= buffer.len() {
        Drained { fragments: Seq::empty(), malformed: Seq::empty(), done: false, rest: buffer }
    } else {
        let rest = buffer.skip(end + 1);
        match frame_of(buffer.take(end)) {
            FrameView::Done => Drained {
                fragments: Seq::empty(),
                malformed: Seq::empty(),
                done: true,
                rest,
            },
            FrameView::Other => drain_lines(rest),
            FrameView::Payload(data) => {
                let later = drain_lines(rest);
                match yield_of(data) {
                    YieldView::Fragment(text) => Drained {
                        fragments: seq![text] + later.fragments,
                        ..later
                    },
                    YieldView::Malformed => Drained {
                        malformed: seq![data] + later.malformed,
                        ..later
                    },
                    YieldView::Nothing => later,
                }
            },
        }
    }
}

/// `later`, after `fragments` and `malformed` were already taken.
pub open spec fn after(
    fragments: Seq<Seq<char>>,
    malformed: Seq<Seq<char>>,
    later: Drained,
) -> Drained {
    Drained {
        fragments: fragments + later.fragments,
        malformed: malformed + later.malformed,
        ..later
    }
}

/// The frame that `text[from..to]` holds.
pub fn frame_line(text: &[char], from: usize, to: usize) -> (frame: Frame)
    requires
        from <= to <= text@.len(),
    ensures
        frame@ == frame_of(text@.subrange(from as int, to as int)),
{
    let (start, end) = trim_bounds(text, from, to);
    let ghost trimmed = text@.subrange(start as int, end as int);
    let prefix: [char; 6] = ['d', 'a', 't', 'a', ':', ' '];
    assert(prefix@ =~= data_prefix());
    if !starts_with(text, start, end, prefix.as_slice()) {
        return Frame::Other;
    }
    let marker: [char; 6] = ['[', 'D', 'O', 'N', 'E', ']'];
    assert(marker@ =~= done_marker());
    assert(trimmed.skip(6) =~= text@.subrange(start + 6, end as int));
    if end - start == 12 && starts_with(text, start + 6, end, marker.as_slice()) {
        assert(trimmed.skip(6).take(6) =~= trimmed.skip(6));
        return Frame::Done;
    }
    assert(trimmed.skip(6) != done_marker()) by {
        if trimmed.skip(6) == done_marker() {
            assert(done_marker().take(6) =~= done_marker());
        }
    }
    let data = string_of(slice_subrange(text, start + 6, end));
    Frame::Payload(data)
}

/// What a record of the stream yields.
pub fn yield_document(doc: &serde_json::Value) -> (r: Yield)
    ensures
        r@ == yield_of_document(json_of(*doc)),
{
    match delta_content(doc) {
        Some(content) => if content.is_empty() {
            Yield::Nothing
        } else {
            Yield::Fragment(String::from_str(content))
        },
        None => Yield::Nothing,
    }
}

/// What the payload of a data line yields.
pub fn yield_payload(data: &str) -> (r: Yield)
    ensures
        r@ == yield_of(data@),
{
    match parse_document(data) {
        None => Yield::Malformed,
        Some(doc) => yield_document(&doc),
    }
}

/// The decoder's two buffers.
pub struct FragmentDecoder {
    /// Bytes that do not yet make complete characters.
    byte_tail: Vec<u8>,
    /// Text that was not yet looked at: after a line that ended the stream
    /// whole lines, otherwise a line that is not yet complete.
    line_tail: Vec<char>,
}

/// What a decoder holds.
pub struct DecoderView {
    /// The bytes that do not yet make complete characters.
    pub bytes: Seq<u8>,
    /// The text that was not yet looked at.
    pub text: Seq<char>,
}

impl View for FragmentDecoder {
    type V = DecoderView;

    closed spec fn view(&self) -> DecoderView {
        DecoderView { bytes: self.byte_tail@, text: self.line_tail@ }
    }
}

/// What one chunk gave.
pub struct Decoded {
    /// The fragments of the reply, in the order of arrival.
    pub fragments: Vec<String>,
    /// The payloads that were not JSON documents. Their lines were skipped.
    pub malformed: Vec<String>,
    /// Whether the line that ends the stream was met. No line after it was
    /// looked at.
    pub done: bool,
}

/// What one chunk gave, as texts.
pub struct DecodedView {
    pub fragments: Seq<Seq<char>>,
    pub malformed: Seq<Seq<char>>,
    pub done: bool,
}

impl View for Decoded {
    type V = DecodedView;

    open spec fn view(&self) -> DecodedView {
        DecodedView {
            fragments: views_of(self.fragments@),
            malformed: views_of(self.malformed@),
            done: self.done,
        }
    }
}

/// The text that the decoder has after `chunk`, before it looks for lines:
/// what it held, then what the bytes at hand decode to.
pub open spec fn text_after(pre: DecoderView, chunk: Seq<u8>) -> Seq<char> {
    pre.text + decoded_text(pre.bytes + chunk)
}

/// The decoder after `chunk`.
pub open spec fn decoder_after(pre: DecoderView, chunk: Seq<u8>) -> DecoderView {
    DecoderView {
        bytes: undecoded_tail(pre.bytes + chunk),
        text: drain_lines(text_after(pre, chunk)).rest,
    }
}

/// What `chunk` gives to a decoder in state `pre`.
pub open spec fn decoded_from(pre: DecoderView, chunk: Seq<u8>) -> DecodedView {
    let drained = drain_lines(text_after(pre, chunk));
    DecodedView { fragments: drained.fragments, malformed: drained.malformed, done: drained.done }
}

/// The end of the first line of `a + b` is that of `a`, where `a` has a
/// complete line.
proof fn lemma_line_end_concat(a: Seq<char>, b: Seq<char>)
    requires
        0 <= line_end(a) < a.len(),
    ensures
        line_end(a + b) == line_end(a),
{
    lemma_line_end_bounds(a);
    let end = line_end(a);
    assert forall|i: int| 0 <= i < end implies #[trigger] (a + b)[i] != '\n' by {
        assert((a + b)[i] == a[i]);
    }
    assert((a + b)[end] == a[end]);
    lemma_line_end(a + b, end);
}

/// What is drained from `a + b`, by what is drained from `a`. Where `a`
/// holds the line that ends the stream, `b` is only kept for later. Where
/// it does not, the lines of `a` are followed by those of what is left of
/// `a` with `b` behind it.
pub open spec fn drained_in_two(a: Seq<char>, b: Seq<char>) -> Drained {
    let first = drain_lines(a);
    if first.done {
        Drained { rest: first.rest + b, ..first }
    } else {
        after(first.fragments, first.malformed, drain_lines(first.rest + b))
    }
}

/// Lines may arrive in any number of pieces: draining `a + b` gives what
/// draining `a` and then what is left of it with `b` gives, up to the line
/// that ends the stream.
pub proof fn lemma_drain_in_two(a: Seq<char>, b: Seq<char>)
    ensures
        drain_lines(a + b) == drained_in_two(a, b),
    decreases a.len(),
{
    let empty = Seq::<Seq<char>>::empty();
    let end = line_end(a);
    lemma_line_end_bounds(a);
    if end >= a.len() {
        let whole = drain_lines(a + b);
        assert(empty + whole.fragments =~= whole.fragments);
        assert(empty + whole.malformed =~= whole.malformed);
    } else {
        lemma_line_end_concat(a, b);
        let rest = a.skip(end + 1);
        assert((a + b).take(end) =~= a.take(end));
        assert((a + b).skip(end + 1) =~= rest + b);
        lemma_drain_in_two(rest, b);
        let first = drain_lines(rest);
        let second = drain_lines(first.rest + b);
        match frame_of(a.take(end)) {
            FrameView::Done => {},
            FrameView::Other => {},
            FrameView::Payload(data) => {
                match yield_of(data) {
                    YieldView::Fragment(text) => {
                        assert(seq![text] + (first.fragments + second.fragments) =~= (seq![text]
                            + first.fragments) + second.fragments);
                    },
                    YieldView::Malformed => {
                        assert(seq![data] + (first.malformed + second.malformed) =~= (seq![data]
                            + first.malformed) + second.malformed);
                    },
                    YieldView::Nothing => {},
                }
            },
        }
    }
}

/// A chunk may be cut at any byte: the decoder has the same text to look
/// at after the two pieces as after the whole, and keeps the same bytes
/// waiting. A decoder that holds no bytes gets from a chunk of well-formed
/// UTF-8 the text that the chunk encodes, and keeps no byte waiting.
pub proof fn lemma_cut_chunk_same_text(pre: DecoderView, chunk: Seq<u8>, cut: int)
    requires
        0 <= cut <= chunk.len(),
    ensures
        decoded_text(pre.bytes + chunk.take(cut)) + decoded_text(
            undecoded_tail(pre.bytes + chunk.take(cut)) + chunk.skip(cut),
        ) == decoded_text(pre.bytes + chunk),
        decoder_after(decoder_after(pre, chunk.take(cut)), chunk.skip(cut)).bytes == decoder_after(
            pre,
            chunk,
        ).bytes,
        pre.bytes.len() == 0 && valid_utf8(chunk) ==> decoded_text(pre.bytes + chunk)
            == decode_utf8(chunk) && decoder_after(pre, chunk).bytes.len() == 0,
{
    let all = pre.bytes + chunk;
    let at = pre.bytes.len() + cut;
    assert(all.take(at) =~= pre.bytes + chunk.take(cut));
    assert(all.skip(at) =~= chunk.skip(cut));
    lemma_split_decodes_the_same(all, at);
    if pre.bytes.len() == 0 {
        assert(all =~= chunk);
    }
}

/// A chunk may be cut at any byte. Where the first piece does not hold
/// the line that ends the stream, the two pieces give, one after the other,
/// what the whole chunk gives, and leave the decoder as the whole chunk
/// leaves it. Where it does, the whole chunk gives what the first piece
/// gives, and leaves for the next call the text that the second piece has
/// to look at.
pub proof fn lemma_cut_chunk_result(pre: DecoderView, chunk: Seq<u8>, cut: int)
    requires
        0 <= cut <= chunk.len(),
    ensures
        ({
            let mid = decoder_after(pre, chunk.take(cut));
            let first = decoded_from(pre, chunk.take(cut));
            let second = decoded_from(mid, chunk.skip(cut));
            let whole = decoded_from(pre, chunk);
            &&& decoder_after(mid, chunk.skip(cut)).bytes == decoder_after(pre, chunk).bytes
            &&& first.done ==> whole == first && decoder_after(pre, chunk).text == text_after(
                mid,
                chunk.skip(cut),
            )
            &&& !first.done ==> {
                &&& decoder_after(mid, chunk.skip(cut)) == decoder_after(pre, chunk)
                &&& first.fragments + second.fragments == whole.fragments
                &&& first.malformed + second.malformed == whole.malformed
                &&& second.done == whole.done
            }
        }),
{
    lemma_cut_chunk_same_text(pre, chunk, cut);
    let t1 = decoded_text(pre.bytes + chunk.take(cut));
    let mid = decoder_after(pre, chunk.take(cut));
    let t2 = decoded_text(mid.bytes + chunk.skip(cut));
    assert((pre.text + t1) + t2 =~= pre.text + (t1 + t2));
    lemma_drain_in_two(pre.text + t1, t2);
    assert(text_after(pre, chunk) == (pre.text + t1) + t2);
    assert(text_after(mid, chunk.skip(cut)) == drain_lines(pre.text + t1).rest + t2);
}

/// A chunk may be cut at any byte: the two pieces give, one after the
/// other, the fragments that the whole chunk gives, and leave the decoder
/// as the whole chunk leaves it, unless a complete line follows the line
/// that ends the stream. Such a line is read by the call after the one
/// that met the end, which comes sooner where the chunk is cut.
pub proof fn lemma_cut_chunk_same_result(pre: DecoderView, chunk: Seq<u8>, cut: int)
    requires
        0 <= cut <= chunk.len(),
        decoded_from(pre, chunk.take(cut)).done ==> line_end(decoder_after(pre, chunk).text)
            >= decoder_after(pre, chunk).text.len(),
    ensures
        ({
            let mid = decoder_after(pre, chunk.take(cut));
            let first = decoded_from(pre, chunk.take(cut));
            let second = decoded_from(mid, chunk.skip(cut));
            let whole = decoded_from(pre, chunk);
            &&& decoder_after(mid, chunk.skip(cut)) == decoder_after(pre, chunk)
            &&& first.fragments + second.fragments == whole.fragments
            &&& first.malformed + second.malformed == whole.malformed
            &&& (first.done || second.done) == whole.done
        }),
{
    lemma_cut_chunk_result(pre, chunk, cut);
    let first = decoded_from(pre, chunk.take(cut));
    if first.done {
        let mid = decoder_after(pre, chunk.take(cut));
        let left = text_after(mid, chunk.skip(cut));
        lemma_line_end_bounds(left);
        let second = decoded_from(mid, chunk.skip(cut));
        assert(first.fragments + second.fragments =~= first.fragments);
        assert(first.malformed + second.malformed =~= first.malformed);
    }
}

impl FragmentDecoder {
    /// A decoder that holds nothing.
    pub fn new() -> (decoder: FragmentDecoder)
        ensures
            decoder@.bytes.len() == 0,
            decoder@.text.len() == 0,
    {
        FragmentDecoder { byte_tail: Vec::new(), line_tail: Vec::new() }
    }

    /// Number of bytes that wait for the rest of their character.
    pub fn pending_bytes(&self) -> (n: usize)
        ensures
            n == self@.bytes.len(),
    {
        self.byte_tail.len()
    }

    /// Number of characters that were not yet looked at.
    pub fn pending_chars(&self) -> (n: usize)
        ensures
            n == self@.text.len(),
    {
        self.line_tail.len()
    }

    /// Takes the next chunk of the stream.
    pub fn feed(&mut self, chunk: &[u8]) -> (out: Decoded)
        ensures
            final(self)@ == decoder_after(old(self)@, chunk@),
            out@ == decoded_from(old(self)@, chunk@),
    {
        let mut i: usize = 0;
        while i < chunk.len()
            invariant
                i <= chunk@.len(),
                self.line_tail@ == old(self).line_tail@,
                self.byte_tail@ == old(self).byte_tail@ + chunk@.take(i as int),
            decreases chunk@.len() - i,
        {
            self.byte_tail.push(chunk[i]);
            i = i + 1;
        }
        assert(chunk@.take(chunk@.len() as int) =~= chunk@);
        let ghost bytes = self.byte_tail@;
        let (text, taken) = decode_prefix(self.byte_tail.as_slice());
        let mut fresh = chars_of(text);
        let rest = self.byte_tail.split_off(taken);
        self.byte_tail = rest;
        assert(self.byte_tail@ =~= undecoded_tail(bytes));
        self.line_tail.append(&mut fresh);
        let ghost buffer = self.line_tail@;
        assert(buffer == text_after(old(self)@, chunk@));

        let mut fragments: Vec<String> = Vec::new();
        let mut malformed: Vec<String> = Vec::new();
        let mut done = false;
        let mut pos: usize = 0;
        assert(buffer.skip(0) =~= buffer);
        loop
            invariant_except_break
                !done,
                drain_lines(buffer) == after(
                    views_of(fragments@),
                    views_of(malformed@),
                    drain_lines(buffer.skip(pos as int)),
                ),
            invariant
                self.line_tail@ == buffer,
                self.byte_tail@ == undecoded_tail(bytes),
                pos <= buffer.len(),
            ensures
                drain_lines(buffer) == (Drained {
                    fragments: views_of(fragments@),
                    malformed: views_of(malformed@),
                    done: done,
                    rest: buffer.skip(pos as int),
                }),
            decreases buffer.len() - pos,
        {
            let ghost here = buffer.skip(pos as int);
            let end = find_line_end(self.line_tail.as_slice(), pos);
            if end >= self.line_tail.len() {
                assert(views_of(fragments@) + Seq::<Seq<char>>::empty() =~= views_of(fragments@));
                assert(views_of(malformed@) + Seq::<Seq<char>>::empty() =~= views_of(malformed@));
                break;
            }
            let frame = frame_line(self.line_tail.as_slice(), pos, end);
            proof {
                assert(here.take(end - pos) =~= buffer.subrange(pos as int, end as int));
                assert(here.skip(end - pos + 1) =~= buffer.skip(end + 1));
            }
            let ghost later = drain_lines(buffer.skip(end + 1));
            match frame {
                Frame::Done => {
                    done = true;
                    pos = end + 1;
                    assert(views_of(fragments@) + Seq::<Seq<char>>::empty() =~= views_of(
                        fragments@,
                    ));
                    assert(views_of(malformed@) + Seq::<Seq<char>>::empty() =~= views_of(
                        malformed@,
                    ));
                    break;
                },
                Frame::Other => {},
                Frame::Payload(data) => {
                    match yield_payload(data.as_str()) {
                        Yield::Fragment(text) => {
                            proof {
                                lemma_views_push(fragments@, text);
                                assert((views_of(fragments@) + seq![text@]) + later.fragments
                                    =~= views_of(fragments@) + (seq![text@] + later.fragments));
                            }
                            fragments.push(text);
                        },
                        Yield::Malformed => {
                            proof {
                                lemma_views_push(malformed@, data);
                                assert((views_of(malformed@) + seq![data@]) + later.malformed
                                    =~= views_of(malformed@) + (seq![data@] + later.malformed));
                            }
                            malformed.push(data);
                        },
                        Yield::Nothing => {},
                    }
                },
            }
            pos = end + 1;
        }
        let left = self.line_tail.split_off(pos);
        self.line_tail = left;
        assert(self.line_tail@ =~= buffer.skip(pos as int));
        Decoded { fragments, malformed, done }
    }
}

} // verus!
