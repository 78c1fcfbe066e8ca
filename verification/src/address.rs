//! Content-address verification: every block address must declare the
//! mandated hash algorithm before its bytes are fetched or hashed.

use vstd::prelude::*;
use crate::encoding::is_ascii_seq;
use crate::errors::PipelineError;

verus! {

/// Multihash algorithm code that every published block must declare.
pub const MANDATED_HASH_CODE: u64 = 0x1b;

/// The hash-algorithm code a content-address string declares, or `None`
/// when the bytes are not the text of a well-formed content address.
/// Decoding is a function of the bytes alone.
pub uninterp spec fn cid_hash_code(addr: Seq<u8>) -> Option<u64>;

/// Relies on `cid::Cid::try_from(&str)` to decode a content-address string
/// and on `Cid::hash`/`Multihash::code` to read the declared hash-algorithm
/// code; the decode is a function of the string alone.
#[verifier::external_body]
pub(crate) fn decode_hash_code(addr: &Vec<u8>) -> (r: Result<u64, ()>)
    ensures
        r matches Ok(c) ==> cid_hash_code(addr@) == Some(c),
        r is Err ==> cid_hash_code(addr@) is None,
{
    let s = match core::str::from_utf8(addr.as_slice()) {
        Ok(s) => s,
        Err(_) => return Err(()),
    };
    match cid::Cid::try_from(s) {
        Ok(c) => Ok(c.hash().code()),
        Err(_) => Err(()),
    }
}

/// A block address acceptable to the notarization pipeline: ASCII text that
/// decodes as a content address and declares the mandated hash algorithm.
pub open spec fn address_ok(addr: Seq<u8>) -> bool {
    &&& is_ascii_seq(addr)
    &&& cid_hash_code(addr) == Some(MANDATED_HASH_CODE)
}

/// Checks one block address before anything is fetched for it: it must be
/// ASCII, decode as a content address, and declare the mandated algorithm.
pub fn verify_address(addr: &Vec<u8>) -> (r: Result<(), PipelineError>)
    ensures
        r is Ok <==> address_ok(addr@),
        r matches Err(e) ==> (e is MalformedAddress || e is WrongHashAlgorithm),
        r matches Err(e) && e is MalformedAddress ==> !is_ascii_seq(addr@) || cid_hash_code(
            addr@,
        ) is None,
        r matches Err(e) && e is WrongHashAlgorithm ==> is_ascii_seq(addr@) && (cid_hash_code(
            addr@,
        ) matches Some(c) && c != MANDATED_HASH_CODE),
{
    if !crate::encoding::check_ascii(addr) {
        return Err(PipelineError::MalformedAddress);
    }
    match decode_hash_code(addr) {
        Ok(code) => {
            if code == MANDATED_HASH_CODE {
                Ok(())
            } else {
                Err(PipelineError::WrongHashAlgorithm)
            }
        },
        Err(_) => Err(PipelineError::MalformedAddress),
    }
}

} // verus!
