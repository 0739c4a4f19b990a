//! Message authentication with HMAC-SHA256, computed by `hmac-sha256`.

use vstd::prelude::*;

verus! {

/// The HMAC-SHA256 of `message` under `key`, as `hmac_sha256::HMAC` computes it.
pub uninterp spec fn hmac_sha256(key: Seq<u8>, message: Seq<u8>) -> Seq<u8>;

/// `HMAC::new(key)`, then `update` with `first` and with `second`, then `finalize`.
/// Claims that the result is `hmac_sha256(key, first ++ second)`: the crate's
/// `update` absorbs its input after what came before.
#[verifier::external_body]
pub(crate) fn hmac_of_parts(key: &[u8], first: &[u8], second: &[u8]) -> (r: [u8; 32])
    ensures
        r@ == hmac_sha256(key@, first@ + second@),
{
    let mut hmac = hmac_sha256::HMAC::new(key);
    hmac.update(first);
    hmac.update(second);
    hmac.finalize()
}

} // verus!
