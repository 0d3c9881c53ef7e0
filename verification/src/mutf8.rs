//! The MUTF-8 boundary: transcoding between the pool's modified UTF-8
//! bytes and UTF-8 strings.
//!
//! MUTF-8 is CESU-8 with NUL encoded as the two bytes `0xC0 0x80`; the
//! transcoding itself is done by the `cesu8` crate.  Both directions
//! are pure functions of their input, so this module only names their
//! results.

use vstd::prelude::*;

verus! {

/// The UTF-8 decoding of a MUTF-8 byte sequence, or `None` where the
/// bytes are not well-formed.  The decoding is a pure function of the
/// bytes; its value is supplied by the `cesu8` crate and is not
/// modelled further.
pub uninterp spec fn mutf8_decoded(b: Seq<u8>) -> Option<Seq<char>>;

/// The MUTF-8 encoding of a string.  The encoding is a pure function
/// of the characters; its value is supplied by the `cesu8` crate and
/// is not modelled further.
pub uninterp spec fn mutf8_of(s: Seq<char>) -> Seq<u8>;

/// Relies on `cesu8::from_java_cesu8`: decoding is a function of the
/// bytes alone, succeeds exactly on well-formed input, and maps empty
/// input to the empty string (the crate returns any valid UTF-8 prefix
/// unchanged, so the empty slice decodes to the empty string).
#[verifier::external_body]
pub(crate) fn from_mutf8(b: &[u8]) -> (r: Option<String>)
    ensures
        match r {
            Some(s) => mutf8_decoded(b@) == Some(s@),
            None => mutf8_decoded(b@) is None && b@.len() != 0,
        },
{
    match cesu8::from_java_cesu8(b) {
        Ok(c) => Some(c.into_owned()),
        Err(_) => None,
    }
}

/// Relies on `cesu8::to_java_cesu8`: encoding is a function of the
/// characters alone, and the empty string encodes to the empty byte
/// sequence (the crate returns valid input unchanged).
#[verifier::external_body]
pub(crate) fn to_mutf8(s: &str) -> (r: Vec<u8>)
    ensures
        r@ == mutf8_of(s@),
        s@.len() == 0 ==> r@.len() == 0,
{
    cesu8::to_java_cesu8(s).into_owned()
}

} // verus!
