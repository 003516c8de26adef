//! Integers on the wire: eight bytes, the least significant first.

use crate::error::DecodeError;
use crate::error::Decoded;
use snarkvm_utilities::FromBytes;
use snarkvm_utilities::ToBytes;
use vstd::bytes::lemma_auto_spec_u64_to_from_le_bytes;
use vstd::bytes::spec_u64_from_le_bytes;
use vstd::bytes::spec_u64_to_le_bytes;
use vstd::prelude::*;
use vstd::slice::slice_subrange;

verus! {

/// The number of bytes of an integer on the wire.
pub const WORD_BYTES: usize = 8;

/// The bytes of `word`.
pub open spec fn word_bytes(word: u64) -> Seq<u8> {
    spec_u64_to_le_bytes(word)
}

/// The integer that stands at the front of `b`, with what follows it, or why
/// there is none.
pub open spec fn decode_word(b: Seq<u8>) -> Decoded<u64> {
    if b.len() < WORD_BYTES {
        Err(DecodeError::UnexpectedEof)
    } else {
        Ok((b.skip(WORD_BYTES as int), spec_u64_from_le_bytes(b.take(WORD_BYTES as int))))
    }
}

/// Reads an integer from the front of `bytes` with `read_le`, which
/// `snarkvm_utilities::FromBytes` has for `u64`.
///
/// The contract is taken on trust. It says that the call fails exactly when
/// fewer than eight bytes are there, and that it otherwise hands back the number
/// whose little-endian form the first eight bytes are.
#[verifier::external_body]
pub(crate) fn read_word(bytes: &[u8]) -> (word: Option<u64>)
    ensures
        word is Some <==> bytes@.len() >= WORD_BYTES,
        word is Some ==> word->0 == spec_u64_from_le_bytes(bytes@.take(WORD_BYTES as int)),
{
    match <u64 as FromBytes>::read_le(bytes) {
        Ok(word) => Some(word),
        Err(_) => None,
    }
}

/// Appends an integer to `sink` with `write_le`, which
/// `snarkvm_utilities::ToBytes` has for `u64`.
///
/// The contract is taken on trust. It says that the call succeeds on a vector
/// and leaves it longer by the eight bytes of the number's little-endian form.
#[verifier::external_body]
pub(crate) fn write_word(word: u64, sink: &mut Vec<u8>) -> (written: bool)
    ensures
        written,
        final(sink)@ == old(sink)@ + spec_u64_to_le_bytes(word),
{
    word.write_le(sink).is_ok()
}

/// Reads an integer from the front of `bytes` and hands back what follows it.
pub fn take_word<'a>(bytes: &'a [u8]) -> (r: Result<(&'a [u8], u64), DecodeError>)
    ensures
        match r {
            Ok((rest, word)) => {
                &&& decode_word(bytes@) == Decoded::Ok((rest@, word))
                &&& bytes@ == word_bytes(word) + rest@
            },
            Err(e) => decode_word(bytes@) == Decoded::<u64>::Err(e),
        },
{
    match read_word(bytes) {
        None => Err(DecodeError::UnexpectedEof),
        Some(word) => {
            let rest = slice_subrange(bytes, WORD_BYTES, bytes.len());
            assert(rest@ =~= bytes@.skip(WORD_BYTES as int));
            proof {
                lemma_word_decode_exact(bytes@, rest@, word);
            }
            Ok((rest, word))
        },
    }
}

/// Decoding the bytes of an integer, whatever follows them, gives the integer
/// back and leaves what followed.
pub proof fn lemma_word_round_trip(word: u64, rest: Seq<u8>)
    ensures
        word_bytes(word).len() == WORD_BYTES,
        decode_word(word_bytes(word) + rest) == Decoded::Ok((rest, word)),
{
    let b = word_bytes(word);
    lemma_auto_spec_u64_to_from_le_bytes();
    assert((b + rest).take(WORD_BYTES as int) =~= b);
    assert((b + rest).skip(WORD_BYTES as int) =~= rest);
}

/// Only the bytes of an integer decode to it: what was decoded and what was left
/// make up the input.
pub proof fn lemma_word_decode_exact(b: Seq<u8>, rest: Seq<u8>, word: u64)
    requires
        decode_word(b) == Decoded::Ok((rest, word)),
    ensures
        b == word_bytes(word) + rest,
{
    lemma_auto_spec_u64_to_from_le_bytes();
    let head = b.take(WORD_BYTES as int);
    assert(spec_u64_to_le_bytes(spec_u64_from_le_bytes(head)) == head);
    assert(b =~= head + b.skip(WORD_BYTES as int));
}

/// An integer that was decoded is decoded again, with the same result, when the
/// bytes go on: what follows is left over with the rest.
pub proof fn lemma_word_decode_followed(b: Seq<u8>, rest: Seq<u8>, word: u64, more: Seq<u8>)
    requires
        decode_word(b) == Decoded::Ok((rest, word)),
    ensures
        decode_word(b + more) == Decoded::Ok((rest + more, word)),
{
    assert((b + more).take(WORD_BYTES as int) =~= b.take(WORD_BYTES as int));
    assert((b + more).skip(WORD_BYTES as int) =~= b.skip(WORD_BYTES as int) + more);
}

} // verus!
