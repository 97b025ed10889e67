//! Base64 transport of the persisted registry, through the `base64` crate's
//! standard engine.

use vstd::prelude::*;

verus! {

/// The standard base64 encoding of a byte sequence, with padding, as the
/// `base64` crate's `STANDARD` engine computes it.
pub uninterp spec fn b64_of(b: Seq<u8>) -> Seq<char>;

#[verifier::external_type_specification]
#[verifier::external_body]
pub struct ExDecodeError(base64::DecodeError);

/// Relies on base64's STANDARD engine: the encoding depends on the bytes
/// alone.
#[verifier::external_body]
pub(crate) fn b64_encode(b: &[u8]) -> (r: String)
    ensures
        r@ == b64_of(b@),
{
    base64::Engine::encode(&base64::prelude::BASE64_STANDARD, b)
}

/// Relies on base64's STANDARD engine, which requires canonical padding and
/// rejects nonzero trailing bits: it accepts exactly the encodings, and
/// decoding an encoding returns the encoded bytes.
#[verifier::external_body]
pub(crate) fn b64_decode(s: &str) -> (r: Result<Vec<u8>, base64::DecodeError>)
    ensures
        r matches Ok(v) ==> s@ == b64_of(v@),
        r matches Ok(v) ==> (forall|b: Seq<u8>| s@ == b64_of(b) ==> v@ == b),
        r matches Err(e) ==> (forall|b: Seq<u8>| s@ != b64_of(b)),
{
    base64::Engine::decode(&base64::prelude::BASE64_STANDARD, s)
}

} // verus!
