//! Trusted bridges to the two std string operations that vstd leaves
//! unspecified. Their contracts are stated over vstd's own UTF-8 model.

use vstd::prelude::*;

use vstd::utf8::{decode_utf8, valid_utf8};

use crate::error::ChunkError;

verus! {

/// Relies on `String::push`: appends exactly one character to the string.
#[verifier::external_body]
pub(crate) fn string_push(s: &mut String, c: char)
    ensures
        final(s)@ == old(s)@.push(c),
{
    s.push(c);
}

/// Relies on `str::from_utf8`: succeeds exactly on valid UTF-8 input, and
/// the resulting string is the decoding of the bytes.
#[verifier::external_body]
pub(crate) fn bytes_to_string(v: &[u8]) -> (r: Result<String, ChunkError>)
    ensures
        r matches Ok(s) ==> valid_utf8(v@) && s@ == decode_utf8(v@),
        r matches Err(e) ==> !valid_utf8(v@) && e == ChunkError::InvalidEncoding,
{
    match core::str::from_utf8(v) {
        Ok(s) => Ok(s.to_owned()),
        Err(_) => Err(ChunkError::InvalidEncoding),
    }
}

} // verus!
