use crate::error::BlobError;
use crate::normalize::{normalized, Newline};
use crate::options::LineEndings;
use vstd::prelude::*;
use vstd::utf8::*;

verus! {

/// The first `k` bytes of `bytes` are UTF-8, and no longer prefix is: `k` is
/// the offset of the first byte that cannot be decoded.
pub open spec fn valid_up_to(bytes: Seq<u8>, k: int) -> bool {
    &&& 0 <= k <= bytes.len()
    &&& valid_utf8(bytes.subrange(0, k))
    &&& forall|j: int| k < j <= bytes.len() ==> !valid_utf8(#[trigger] bytes.subrange(0, j))
}

/// At most one offset is the first that cannot be decoded.
pub proof fn lemma_valid_up_to_unique(bytes: Seq<u8>, k1: int, k2: int)
    requires
        valid_up_to(bytes, k1),
        valid_up_to(bytes, k2),
    ensures
        k1 == k2,
{
    if k1 < k2 {
        assert(!valid_utf8(bytes.subrange(0, k2)));
    } else if k2 < k1 {
        assert(!valid_utf8(bytes.subrange(0, k1)));
    }
}

/// Among the prefixes of at most `n` bytes there is a longest that is UTF-8,
/// if no longer prefix is.
proof fn lemma_longest_valid_prefix(bytes: Seq<u8>, n: int) -> (k: int)
    requires
        0 <= n <= bytes.len(),
        forall|j: int| n < j <= bytes.len() ==> !valid_utf8(#[trigger] bytes.subrange(0, j)),
    ensures
        valid_up_to(bytes, k),
        k <= n,
    decreases n,
{
    if valid_utf8(bytes.subrange(0, n)) {
        n
    } else {
        assert(n > 0) by {
            assert(bytes.subrange(0, 0) =~= Seq::<u8>::empty());
        }
        lemma_longest_valid_prefix(bytes, n - 1)
    }
}

/// The offset of the first byte of `bytes` that cannot be decoded.
pub open spec fn first_undecodable(bytes: Seq<u8>) -> int {
    choose|k: int| valid_up_to(bytes, k)
}

/// Every run of bytes has a first offset that cannot be decoded; it is the
/// length of the bytes exactly when they are UTF-8 as a whole.
pub proof fn lemma_first_undecodable(bytes: Seq<u8>)
    ensures
        valid_up_to(bytes, first_undecodable(bytes)),
        first_undecodable(bytes) == bytes.len() <==> valid_utf8(bytes),
{
    let k = lemma_longest_valid_prefix(bytes, bytes.len() as int);
    assert(bytes.subrange(0, bytes.len() as int) =~= bytes);
}

/// What a decoded text becomes under the policy `endings` on a host whose
/// native terminator is `host`: its normal form, or the text as it is.
pub open spec fn text_under(text: Seq<char>, endings: LineEndings, host: Newline) -> Seq<char> {
    match endings {
        LineEndings::Native => normalized(text, host),
        LineEndings::Transparent => text,
    }
}

/// What decoding `bytes` gives: the text, if the bytes are UTF-8 as a whole,
/// or else the offset of the first byte that cannot be decoded.
pub open spec fn decoding(bytes: Seq<u8>, endings: LineEndings, host: Newline) -> Result<
    Seq<char>,
    BlobError,
> {
    if valid_utf8(bytes) {
        Ok(text_under(decode_utf8(bytes), endings, host))
    } else {
        Err(BlobError::InvalidEncoding { valid_up_to: first_undecodable(bytes) as usize })
    }
}

/// The characters of a decoded text, or the error as it is.
pub open spec fn outcome_view(r: Result<String, BlobError>) -> Result<Seq<char>, BlobError> {
    match r {
        Ok(s) => Ok(s@),
        Err(e) => Err(e),
    }
}

/// `String::from_utf8`, with its error reduced to `Utf8Error::valid_up_to`.
///
/// The standard library accepts the bytes exactly when they are UTF-8, and
/// the string it returns holds those bytes. When it refuses them, the offset
/// it reports is the greatest one up to which the bytes are UTF-8.
#[verifier::external_body]
pub(crate) fn string_from_utf8(bytes: Vec<u8>) -> (r: Result<String, usize>)
    ensures
        r is Ok <==> valid_utf8(bytes@),
        r matches Ok(s) ==> encode_utf8(s@) == bytes@,
        r matches Err(k) ==> valid_up_to(bytes@, k as int),
{
    match String::from_utf8(bytes) {
        Ok(text) => Ok(text),
        Err(e) => Err(e.utf8_error().valid_up_to()),
    }
}

} // verus!
