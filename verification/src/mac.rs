//! Keyed message authentication.

use hmac::{Hmac, KeyInit, Mac};
use sha2::Sha256;
use vstd::prelude::*;

verus! {

/// The HMAC-SHA-256 of a message under a key.
pub uninterp spec fn hmac_sha256_of(key: Seq<u8>, message: Seq<u8>) -> Seq<u8>;

/// The HMAC of `hmac::Hmac` over `sha2::Sha256`: the key goes to
/// `new_from_slice`, which takes keys of any length, the whole message to
/// `update`, and `finalize` gives the code.  The code is 32 bytes and depends on
/// the key and the message alone.
#[verifier::external_body]
pub(crate) fn hmac_sha256(key: &[u8], message: &[u8]) -> (code: [u8; 32])
    ensures
        code@ == hmac_sha256_of(key@, message@),
{
    let mut mac = Hmac::<Sha256>::new_from_slice(key).expect("HMAC takes keys of any length");
    mac.update(message);
    mac.finalize().into_bytes().into()
}

} // verus!
