//! Message digests and their hexadecimal notation.
//!
//! The digests themselves are computed by the `md5` and `sha1` crates and the
//! notation by the `hex` crate; this module gives their results a meaning
//! that the rest of the client can reason about.

use vstd::prelude::*;
use vstd::utf8::{encode_utf8, is_ascii_chars, is_ascii_chars_encode_utf8};
use sha1::{Digest, Sha1};
use crate::text::{ascii_chars, bytes_eq, is_ascii_bytes};

verus! {

/// The MD5 digest of a message, as the `md5` crate computes it.
pub uninterp spec fn md5_digest(data: Seq<u8>) -> Seq<u8>;

/// The SHA-1 digest of a message, as the `sha1` crate computes it.
pub uninterp spec fn sha1_digest(data: Seq<u8>) -> Seq<u8>;

/// `md5::compute`: the sixteen bytes of the MD5 digest of `data`. Nothing is
/// proved of the digest; it is only given the name `md5_digest`.
#[verifier::external_body]
pub(crate) fn md5_compute(data: &[u8]) -> (digest: [u8; 16])
    ensures
        digest@ == md5_digest(data@),
{
    md5::compute(data).0
}

/// `Sha1::digest` of the `sha1` crate: the twenty bytes of the SHA-1 digest
/// of `data`. Nothing is proved of the digest; it is only given the name
/// `sha1_digest`.
#[verifier::external_body]
pub(crate) fn sha1_compute(data: &[u8]) -> (digest: [u8; 20])
    ensures
        digest@ == sha1_digest(data@),
{
    Sha1::digest(data).into()
}

/// The lower-case hexadecimal digit, as an ASCII code, of a value below 16.
pub open spec fn hex_digit(nibble: int) -> u8 {
    if nibble < 10 {
        (48 + nibble) as u8
    } else {
        (87 + nibble) as u8
    }
}

/// Lower-case hexadecimal notation: two digits for each byte, the high half
/// first.
pub open spec fn hex_bytes(data: Seq<u8>) -> Seq<u8> {
    Seq::new(
        2 * data.len(),
        |i: int|
            if i % 2 == 0 {
                hex_digit(data[i / 2] as int / 16)
            } else {
                hex_digit(data[i / 2] as int % 16)
            },
    )
}

/// The hexadecimal notation as characters.
pub open spec fn hex_chars(data: Seq<u8>) -> Seq<char> {
    ascii_chars(hex_bytes(data))
}

/// `hex::encode`: the lower-case hexadecimal notation of `data`, two
/// characters for each byte.
#[verifier::external_body]
pub(crate) fn hex_encode(data: &[u8]) -> (text: String)
    ensures
        text@ == hex_chars(data@),
{
    hex::encode(data)
}

/// Hexadecimal notation is plain ASCII, so its characters and its bytes are
/// the same numbers.
pub proof fn lemma_hex_is_ascii(data: Seq<u8>)
    ensures
        is_ascii_bytes(hex_bytes(data)),
        is_ascii_chars(hex_chars(data)),
        encode_utf8(hex_chars(data)) == hex_bytes(data),
        hex_bytes(data).len() == 2 * data.len(),
{
    let bytes = hex_bytes(data);
    let chars = hex_chars(data);
    assert forall|i: int| 0 <= i < bytes.len() implies #[trigger] bytes[i] < 128 by {
        let byte = data[i / 2] as int;
        assert(0 <= byte / 16 < 16 && 0 <= byte % 16 < 16);
    }
    assert forall|i: int| 0 <= i < chars.len() implies '\0' <= #[trigger] chars[i] <= '\u{7f}' by {
        assert(bytes[i] < 128);
    }
    is_ascii_chars_encode_utf8(chars);
    assert(encode_utf8(chars) =~= bytes) by {
        assert forall|i: int| 0 <= i < bytes.len() implies encode_utf8(chars)[i] == bytes[i] by {
            assert(chars[i] as u8 == encode_utf8(chars)[i]);
            assert(bytes[i] < 128);
        }
    }
}

/// The hexadecimal notation of a byte string.
pub fn to_hex(data: &[u8]) -> (text: String)
    ensures
        text@ == hex_chars(data@),
        encode_utf8(text@) == hex_bytes(data@),
{
    proof {
        lemma_hex_is_ascii(data@);
    }
    hex_encode(data)
}

/// Is `stated` the hexadecimal notation of `digest`?
pub fn digest_matches(digest: &[u8], stated: &[u8]) -> (same: bool)
    ensures
        same == (hex_bytes(digest@) == stated@),
{
    let notation = to_hex(digest);
    bytes_eq(notation.as_str().as_bytes(), stated)
}

} // verus!
