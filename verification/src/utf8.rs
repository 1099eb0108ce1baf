//! Decoding of a byte stream whose chunks may end in the middle of a
//! character: what is complete is decoded, the rest waits for more bytes.

use vstd::prelude::*;
use vstd::slice::slice_subrange;
use vstd::utf8::*;

verus! {

/// The greatest `n <= limit` such that the first `n` bytes are well-formed UTF-8.
pub open spec fn valid_prefix_upto(bytes: Seq<u8>, limit: int) -> int
    decreases limit,
{
    if limit <= 0 {
        0
    } else if limit <= bytes.len() && valid_utf8(bytes.take(limit)) {
        limit
    } else {
        valid_prefix_upto(bytes, limit - 1)
    }
}

/// Length of the longest prefix of `bytes` that is well-formed UTF-8.
pub open spec fn valid_prefix_len(bytes: Seq<u8>) -> int {
    valid_prefix_upto(bytes, bytes.len() as int)
}

/// `n` is the length of the longest well-formed prefix of `bytes`.
pub open spec fn is_longest_valid_prefix(bytes: Seq<u8>, n: int) -> bool {
    &&& 0 <= n <= bytes.len()
    &&& valid_utf8(bytes.take(n))
    &&& forall|m: int| n < m <= bytes.len() ==> !valid_utf8(#[trigger] bytes.take(m))
}

proof fn lemma_valid_prefix_upto(bytes: Seq<u8>, limit: int)
    requires
        0 <= limit <= bytes.len(),
    ensures
        0 <= valid_prefix_upto(bytes, limit) <= limit,
        valid_utf8(bytes.take(valid_prefix_upto(bytes, limit))),
        forall|m: int|
            valid_prefix_upto(bytes, limit) < m <= limit ==> !valid_utf8(#[trigger] bytes.take(m)),
    decreases limit,
{
    if limit <= 0 {
        assert(bytes.take(0).len() == 0);
    } else if valid_utf8(bytes.take(limit)) {
    } else {
        lemma_valid_prefix_upto(bytes, limit - 1);
    }
}

/// `valid_prefix_len` is the one length that `is_longest_valid_prefix` admits.
pub proof fn lemma_valid_prefix_len(bytes: Seq<u8>)
    ensures
        is_longest_valid_prefix(bytes, valid_prefix_len(bytes)),
        forall|n: int| is_longest_valid_prefix(bytes, n) ==> n == valid_prefix_len(bytes),
{
    lemma_valid_prefix_upto(bytes, bytes.len() as int);
}

/// The text that the longest well-formed prefix of `bytes` encodes.
pub open spec fn decoded_text(bytes: Seq<u8>) -> Seq<char> {
    decode_utf8(bytes.take(valid_prefix_len(bytes)))
}

/// What follows the longest well-formed prefix of `bytes`.
pub open spec fn undecoded_tail(bytes: Seq<u8>) -> Seq<u8> {
    bytes.skip(valid_prefix_len(bytes))
}

/// The error of `core::str::from_utf8`.
#[verifier::external_type_specification]
#[verifier::external_body]
pub struct ExUtf8Error(core::str::Utf8Error);

/// The length that a `Utf8Error` reports: that of the part of the input
/// that was found well-formed.
pub uninterp spec fn valid_up_to_of(error: core::str::Utf8Error) -> int;

/// `core::str::from_utf8` accepts exactly the well-formed UTF-8, and gives
/// the text that the bytes encode. Where it refuses the bytes, the error
/// holds the length of their longest well-formed prefix.
pub assume_specification<'a>[ core::str::from_utf8 ](v: &'a [u8]) -> (r: Result<
    &'a str,
    core::str::Utf8Error,
>)
    ensures
        r is Ok <==> valid_utf8(v@),
        r matches Ok(text) ==> text@ == decode_utf8(v@),
        r matches Err(error) ==> is_longest_valid_prefix(v@, valid_up_to_of(error)),
;

/// `Utf8Error::valid_up_to` gives the length that the error holds.
pub assume_specification[ core::str::Utf8Error::valid_up_to ](error: &core::str::Utf8Error) -> (n:
    usize)
    ensures
        n == valid_up_to_of(*error),
;

/// Splits `bytes` into the text of its longest well-formed prefix and the
/// number of bytes that this text took.
pub fn decode_prefix(bytes: &[u8]) -> (r: (&str, usize))
    ensures
        r.0@ == decoded_text(bytes@),
        r.1 == valid_prefix_len(bytes@),
        r.1 <= bytes@.len(),
{
    proof {
        lemma_valid_prefix_len(bytes@);
        assert(bytes@.take(bytes@.len() as int) =~= bytes@);
    }
    match core::str::from_utf8(bytes) {
        Ok(text) => (text, bytes.len()),
        Err(error) => {
            let taken = error.valid_up_to();
            let prefix = slice_subrange(bytes, 0, taken);
            assert(prefix@ =~= bytes@.take(taken as int));
            match core::str::from_utf8(prefix) {
                Ok(text) => (text, taken),
                // The prefix is well-formed: this arm is never taken.
                Err(_) => ("", taken),
            }
        },
    }
}

/// A prefix of well-formed bytes that is itself well-formed ends on a
/// character boundary.
pub proof fn lemma_valid_prefix_is_boundary(bytes: Seq<u8>, n: int)
    requires
        valid_utf8(bytes),
        0 <= n <= bytes.len(),
        valid_utf8(bytes.take(n)),
    ensures
        is_char_boundary(bytes, n),
    decreases bytes.len(),
{
    if n == 0 {
    } else {
        let head = bytes.take(n);
        assert(head.len() == n);
        assert(valid_first_scalar(head));
        assert(forall|i: int| 0 <= i < n ==> head[i] == bytes[i]);
        assert(valid_first_scalar(bytes));
        let len = length_of_first_scalar(bytes);
        assert(length_of_first_scalar(head) == len);
        assert(pop_first_scalar(head) =~= pop_first_scalar(bytes).take(n - len));
        lemma_valid_prefix_is_boundary(pop_first_scalar(bytes), n - len);
    }
}

/// Well-formed bytes are decoded whole, and none is left waiting.
pub proof fn lemma_well_formed_decodes_whole(bytes: Seq<u8>)
    requires
        valid_utf8(bytes),
    ensures
        decoded_text(bytes) == decode_utf8(bytes),
        undecoded_tail(bytes) == Seq::<u8>::empty(),
{
    lemma_valid_prefix_len(bytes);
    assert(bytes.take(bytes.len() as int) =~= bytes);
    assert(undecoded_tail(bytes) =~= Seq::<u8>::empty());
}

/// Bytes may arrive in two pieces, cut anywhere: what the first piece
/// decodes to, followed by what its undecoded rest and the second piece
/// decode to, is what the whole decodes to, and the same bytes are left
/// waiting. For well-formed UTF-8 this is its text, and no byte is left.
pub proof fn lemma_split_decodes_the_same(bytes: Seq<u8>, cut: int)
    requires
        0 <= cut <= bytes.len(),
    ensures
        decoded_text(bytes.take(cut)) + decoded_text(
            undecoded_tail(bytes.take(cut)) + bytes.skip(cut),
        ) == decoded_text(bytes),
        undecoded_tail(undecoded_tail(bytes.take(cut)) + bytes.skip(cut)) == undecoded_tail(bytes),
        valid_utf8(bytes) ==> decoded_text(bytes) == decode_utf8(bytes) && undecoded_tail(bytes)
            == Seq::<u8>::empty(),
{
    let first = bytes.take(cut);
    let taken = valid_prefix_len(first);
    let whole = valid_prefix_len(bytes);
    lemma_valid_prefix_len(first);
    lemma_valid_prefix_len(bytes);
    assert(first.take(taken) =~= bytes.take(taken));
    assert(taken <= whole);
    let second = undecoded_tail(first) + bytes.skip(cut);
    assert(second =~= bytes.skip(taken));
    let head = bytes.take(whole);
    assert(head.take(taken) =~= bytes.take(taken));
    lemma_valid_prefix_is_boundary(head, taken);
    valid_utf8_split(head, taken);
    decode_utf8_split(head, taken);
    assert(head.subrange(0, taken) =~= bytes.take(taken));
    assert(head.subrange(taken, head.len() as int) =~= second.take(whole - taken));
    assert forall|m: int| whole - taken < m <= second.len() implies !valid_utf8(
        #[trigger] second.take(m),
    ) by {
        if valid_utf8(second.take(m)) {
            valid_utf8_concat(bytes.take(taken), second.take(m));
            assert(bytes.take(taken) + second.take(m) =~= bytes.take(taken + m));
        }
    }
    assert(is_longest_valid_prefix(second, whole - taken));
    lemma_valid_prefix_len(second);
    assert(undecoded_tail(second) =~= undecoded_tail(bytes));
    if valid_utf8(bytes) {
        lemma_well_formed_decodes_whole(bytes);
    }
}

} // verus!
