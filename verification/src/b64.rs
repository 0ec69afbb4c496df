//! Trusted boundary to the base64 crate's standard engine (canonical
//! alphabet, padded), which the wire codec uses for every byte-blob field.
use vstd::prelude::*;

use base64::Engine;

use crate::DecodeError;

verus! {

/// The standard base64 text of a byte sequence (canonical alphabet, with
/// padding). Named, not written out: the base64 crate computes it, and the
/// contracts below say how encoding and decoding relate through it.
pub uninterp spec fn b64_of(b: Seq<u8>) -> Seq<char>;

/// What standard base64 decoding yields for a text: `Some` bytes exactly on
/// canonical encodings, `None` on every other text.
pub uninterp spec fn b64_decoded(s: Seq<char>) -> Option<Seq<u8>>;

/// A character of the standard base64 alphabet, or its padding.
pub open spec fn is_b64_char(c: char) -> bool {
    ||| 'A' <= c <= 'Z'
    ||| 'a' <= c <= 'z'
    ||| '0' <= c <= '9'
    ||| c == '+'
    ||| c == '/'
    ||| c == '='
}

/// Every character of the base64 text of `b` is in the standard alphabet (in
/// particular no quote, backslash or control character).
pub open spec fn b64_text_ok(b: Seq<u8>) -> bool {
    forall|i: int| 0 <= i < b64_of(b).len() ==> is_b64_char(b64_of(b)[i])
}

/// Relies on base64's `STANDARD.encode`: it emits the canonical padded
/// encoding over the standard alphabet, the empty input encodes to the empty
/// text, and `STANDARD.decode` inverts it.
#[verifier::external_body]
pub(crate) fn b64_encode(b: &[u8]) -> (r: String)
    ensures
        r@ == b64_of(b@),
        b64_decoded(r@) == Some(b@),
        forall|i: int| 0 <= i < r@.len() ==> is_b64_char(r@[i]),
        b@.len() == 0 ==> r@ =~= Seq::<char>::empty(),
{
    base64::engine::general_purpose::STANDARD.encode(b)
}

/// Relies on base64's `STANDARD.decode`: with canonical padding required and
/// trailing bits rejected, it accepts exactly the canonical encodings (any
/// symbol outside the alphabet is refused) and returns the bytes they encode.
#[verifier::external_body]
pub(crate) fn b64_decode(s: &str) -> (r: Result<Vec<u8>, DecodeError>)
    ensures
        r matches Ok(v) ==> s@ == b64_of(v@) && b64_decoded(s@) == Some(v@),
        r matches Ok(v) ==> forall|i: int| 0 <= i < s@.len() ==> is_b64_char(s@[i]),
        r is Err ==> b64_decoded(s@) is None,
        (exists|b: Seq<u8>| s@ == b64_of(b)) ==> r is Ok,
        r matches Ok(v) ==> forall|b: Seq<u8>| s@ == b64_of(b) ==> v@ == b,
{
    match base64::engine::general_purpose::STANDARD.decode(s.as_bytes()) {
        Ok(v) => Ok(v),
        Err(_) => Err(DecodeError),
    }
}

} // verus!
