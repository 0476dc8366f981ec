//! The content digest: SHA-256 over a canonical text, rendered as lowercase
//! hexadecimal. The hash itself comes from the `sha2` crate; the hexadecimal
//! rendering is verified library code.
use vstd::prelude::*;

use crate::text::{chars_to_string, hex_bytes, lemma_hex_bytes_len, push_hex_from};
use sha2::Digest;

verus! {

/// The 32-byte SHA-256 digest of the UTF-8 bytes of a character sequence.
/// The value is fixed by the input characters alone.
pub uninterp spec fn sha256_of(s: Seq<char>) -> Seq<u8>;

/// Relies on `sha2::Sha256` (`update`, then `finalize`): the digest is 32
/// bytes long and depends on the hashed bytes alone; a `&str`'s UTF-8 bytes
/// are a function of its characters.
#[verifier::external_body]
fn sha256(s: &str) -> (r: Vec<u8>)
    ensures
        r@ == sha256_of(s@),
        r@.len() == 32,
{
    let mut hasher = sha2::Sha256::new();
    hasher.update(s.as_bytes());
    hasher.finalize().as_slice().to_vec()
}

/// The digest of a character sequence as 64 lowercase hexadecimal characters.
pub open spec fn digest_chars(s: Seq<char>) -> Seq<char> {
    hex_bytes(sha256_of(s))
}

/// Computes the SHA-256 digest of `s` and renders it as lowercase hexadecimal.
pub fn sha256_hex(s: &str) -> (r: String)
    ensures
        r@ == digest_chars(s@),
        r@.len() == 64,
{
    let bytes = sha256(s);
    let mut out: Vec<char> = Vec::new();
    push_hex_from(&mut out, &bytes, 0);
    proof {
        assert(bytes@.skip(0) =~= bytes@);
        lemma_hex_bytes_len(bytes@);
    }
    chars_to_string(&out)
}

} // verus!
