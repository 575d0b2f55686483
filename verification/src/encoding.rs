//! Base64 text of a binary payload, as the `base64` crate writes it.

use vstd::prelude::*;
use base64::Engine;

verus! {

/// The standard, padded base64 text of `bytes`.
pub uninterp spec fn base64_text(bytes: Seq<u8>) -> Seq<char>;

/// Calls `base64::Engine::encode` on the crate's `STANDARD` engine.
///
/// Believed, not proved: the text that comes back depends on the bytes alone,
/// and `base64_text` is the name of that text. The call fails only where the
/// encoded length does not fit a `usize`, which takes an input longer than a
/// slice can be.
#[verifier::external_body]
pub(crate) fn base64_encode(bytes: &[u8]) -> (text: String)
    ensures
        text@ == base64_text(bytes@),
{
    base64::engine::general_purpose::STANDARD.encode(bytes)
}

} // verus!
