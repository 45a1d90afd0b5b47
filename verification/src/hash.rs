//! The content hash by which a frame that was already sent is known again.

use vstd::prelude::*;

verus! {

/// The MD5 digest of `bytes` in lower-case hexadecimal.
pub uninterp spec fn md5_hex(bytes: Seq<u8>) -> Seq<char>;

/// Calls `md5::compute` and formats the digest with its `LowerHex`
/// implementation. Nothing of this is proved: the digest is taken to depend
/// on the bytes alone, and its text to have two characters for each of the
/// sixteen bytes of the digest.
#[verifier::external_body]
pub(crate) fn content_hash(bytes: &Vec<u8>) -> (hash: String)
    ensures
        hash@ == md5_hex(bytes@),
        hash@.len() == 32,
{
    format!("{:x}", md5::compute(bytes))
}

} // verus!
