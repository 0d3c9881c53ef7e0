//! Adler-32 checksum of the body of a DEX image.
//!
//! The header stores an Adler-32 checksum of everything after its own
//! magic and checksum words.  The sum itself is computed by the
//! `adler32` crate; this module only names its result.

use vstd::prelude::*;

verus! {

/// The Adler-32 checksum of a byte sequence.  The checksum is a pure
/// function of the bytes; its value is supplied by the `adler32` crate
/// and is not modelled further.
pub uninterp spec fn adler32_of(b: Seq<u8>) -> u32;

/// Relies on `adler32::RollingAdler32::from_buffer` and `hash`: the
/// Adler-32 checksum of a buffer is a function of its bytes alone.
#[verifier::external_body]
pub(crate) fn adler32_checksum(b: &[u8]) -> (r: u32)
    ensures
        r == adler32_of(b@),
{
    adler32::RollingAdler32::from_buffer(b).hash()
}

} // verus!
