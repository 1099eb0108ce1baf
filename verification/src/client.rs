//! What the client of the completion service decides between its reads
//! from the network: what a streamed reply holds so far, and what a
//! complete response carries.

use vstd::prelude::*;
use vstd::string::StringExecFns;
use vstd::seq_lib::lemma_flatten_concat;
use crate::decoder::{
    decoded_from, decoder_after, lemma_cut_chunk_same_result, Decoded, DecoderView,
    FragmentDecoder,
};
use crate::lines::line_end;
use crate::json::{json_of, member_of, text_of, value_items, value_member, value_text, Json};
use crate::strings::views_of;

verus! {

/// A reply that is being streamed: the decoder of its bytes, and the text
/// that the fragments made so far.
pub struct StreamingReply {
    decoder: FragmentDecoder,
    full_content: String,
}

/// A reply that is being streamed, as texts.
pub struct StreamingReplyView {
    pub decoder: DecoderView,
    pub full_content: Seq<char>,
}

impl View for StreamingReply {
    type V = StreamingReplyView;

    closed spec fn view(&self) -> StreamingReplyView {
        StreamingReplyView { decoder: self.decoder@, full_content: self.full_content@ }
    }
}

/// The reply after `chunk`: the decoder has taken the chunk, and the
/// fragments that it gave are added to the text.
pub open spec fn reply_after(pre: StreamingReplyView, chunk: Seq<u8>) -> StreamingReplyView {
    StreamingReplyView {
        decoder: decoder_after(pre.decoder, chunk),
        full_content: pre.full_content + decoded_from(pre.decoder, chunk).fragments.flatten(),
    }
}

/// The chunks of a response may be cut at any byte: the reply is the same
/// after the two pieces as after the whole chunk, unless a complete line
/// follows the line that ends the stream.
pub proof fn lemma_reply_takes_any_cut(pre: StreamingReplyView, chunk: Seq<u8>, cut: int)
    requires
        0 <= cut <= chunk.len(),
        decoded_from(pre.decoder, chunk.take(cut)).done ==> line_end(
            decoder_after(pre.decoder, chunk).text,
        ) >= decoder_after(pre.decoder, chunk).text.len(),
    ensures
        reply_after(reply_after(pre, chunk.take(cut)), chunk.skip(cut)) == reply_after(pre, chunk),
{
    lemma_cut_chunk_same_result(pre.decoder, chunk, cut);
    let first = decoded_from(pre.decoder, chunk.take(cut));
    let mid = decoder_after(pre.decoder, chunk.take(cut));
    let second = decoded_from(mid, chunk.skip(cut));
    lemma_flatten_concat(first.fragments, second.fragments);
    assert((pre.full_content + first.fragments.flatten()) + second.fragments.flatten()
        =~= pre.full_content + (first.fragments.flatten() + second.fragments.flatten()));
}

impl StreamingReply {
    /// A reply of which nothing has arrived.
    pub fn new() -> (reply: StreamingReply)
        ensures
            reply@.decoder.bytes.len() == 0,
            reply@.decoder.text.len() == 0,
            reply@.full_content.len() == 0,
    {
        StreamingReply { decoder: FragmentDecoder::new(), full_content: String::new() }
    }

    /// Takes the next chunk of the response. The fragments that it gives
    /// are to be forwarded in their order; they are added to the reply's
    /// text.
    pub fn accept(&mut self, chunk: &[u8]) -> (out: Decoded)
        ensures
            final(self)@ == reply_after(old(self)@, chunk@),
            out@ == decoded_from(old(self)@.decoder, chunk@),
    {
        let out = self.decoder.feed(chunk);
        let mut i: usize = 0;
        assert(views_of(out.fragments@).take(0).flatten() =~= Seq::<char>::empty());
        assert(self.full_content@ + Seq::<char>::empty() =~= self.full_content@);
        while i < out.fragments.len()
            invariant
                i <= out.fragments@.len(),
                self.decoder@ == decoder_after(old(self)@.decoder, chunk@),
                self.full_content@ == old(self).full_content@ + views_of(out.fragments@).take(
                    i as int,
                ).flatten(),
            decreases out.fragments@.len() - i,
        {
            proof {
                let texts = views_of(out.fragments@);
                assert(texts.take(i + 1) =~= texts.take(i as int).push(texts[i as int]));
                texts.take(i as int).lemma_flatten_push(texts[i as int]);
                assert((old(self).full_content@ + texts.take(i as int).flatten()) + texts[i as int]
                    =~= old(self).full_content@ + (texts.take(i as int).flatten()
                    + texts[i as int]));
            }
            self.full_content.append(out.fragments[i].as_str());
            i = i + 1;
        }
        assert(views_of(out.fragments@).take(i as int) =~= views_of(out.fragments@));
        out
    }

    /// Number of bytes that wait for the rest of their character.
    pub fn pending_bytes(&self) -> (n: usize)
        ensures
            n == self@.decoder.bytes.len(),
    {
        self.decoder.pending_bytes()
    }

    /// Number of characters that were not yet looked at.
    pub fn pending_chars(&self) -> (n: usize)
        ensures
            n == self@.decoder.text.len(),
    {
        self.decoder.pending_chars()
    }

    /// The text of the reply so far.
    pub fn text(&self) -> (text: &str)
        ensures
            text@ == self@.full_content,
    {
        self.full_content.as_str()
    }

    /// Ends the reply: its text. A line that was not complete is left out.
    pub fn finish(self) -> (text: String)
        ensures
            text@ == self@.full_content,
    {
        self.full_content
    }
}

/// Why a complete response holds no reply.
#[derive(Debug, Clone, Copy, PartialEq, Eq, Structural)]
pub enum ReplyError {
    /// There is no array under `choices`.
    ChoicesNotArray,
    /// The array under `choices` is empty.
    NoChoice,
    /// There is no string at `message.content` of the first choice.
    ContentNotString,
}

/// The text at `message.content` of `choice`, if there is a string.
pub open spec fn message_content_of(choice: Json) -> Option<Seq<char>> {
    match member_of(choice, "message"@) {
        Some(message) => match member_of(message, "content"@) {
            Some(content) => text_of(content),
            None => None,
        },
        None => None,
    }
}

/// The reply that a complete response carries, at
/// `choices[0].message.content`.
pub open spec fn reply_of(doc: Json) -> Result<Seq<char>, ReplyError> {
    match member_of(doc, "choices"@) {
        Some(Json::Array(choices)) => if choices.len() == 0 {
            Err(ReplyError::NoChoice)
        } else {
            match message_content_of(choices[0]) {
                Some(text) => Ok(text),
                None => Err(ReplyError::ContentNotString),
            }
        },
        _ => Err(ReplyError::ChoicesNotArray),
    }
}

/// The reply that a complete response carries.
pub fn completion_text(doc: &serde_json::Value) -> (reply: Result<&str, ReplyError>)
    ensures
        match reply {
            Ok(text) => reply_of(json_of(*doc)) == Ok::<Seq<char>, ReplyError>(text@),
            Err(error) => reply_of(json_of(*doc)) == Err::<Seq<char>, ReplyError>(error),
        },
{
    let choices = match value_member(doc, "choices") {
        Some(choices) => choices,
        None => {
            return Err(ReplyError::ChoicesNotArray);
        },
    };
    let items = match value_items(choices) {
        Some(items) => items,
        None => {
            return Err(ReplyError::ChoicesNotArray);
        },
    };
    if items.len() == 0 {
        return Err(ReplyError::NoChoice);
    }
    let content = match value_member(&items[0], "message") {
        Some(message) => value_member(message, "content"),
        None => None,
    };
    match content {
        Some(content) => match value_text(content) {
            Some(text) => Ok(text),
            None => Err(ReplyError::ContentNotString),
        },
        None => Err(ReplyError::ContentNotString),
    }
}

} // verus!
