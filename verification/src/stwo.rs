//! Decision logic of the STWO Cairo extension verifier.
//!
//! The STARK verification itself is an external capability; what belongs to
//! this library is the pure part in front of it: which `(extension id, mode)`
//! pairs the prototype supports, and how the proof bytes and the Pedersen
//! flag are extracted from a precondition/witness pair.

use vstd::prelude::*;
use vstd::slice::slice_subrange;

use crate::tze::Data;

verus! {

/// Extension identifier allocated to the STWO Cairo verifier TZE
/// (`"STWO"` in ASCII).
pub const STWO_CAIRO_EXTENSION_ID: u64 = 0x5354_574F;

/// Failures of the proof-bytes extraction.
#[derive(Clone, Copy, Debug, PartialEq, Eq, Structural)]
pub enum ExtractError {
    /// Neither payload holds the flag byte the proof layout requires.
    MissingFlagByte,
}

/// Whether `mode` is one of the modes the prototype verifier supports
/// (currently only mode 0).
pub fn stwo_mode_supported(mode: u64) -> (r: bool)
    ensures
        r == (mode == 0),
{
    mode == 0
}

/// Whether a verification request is within the prototype's supported
/// surface: the requested mode and both payloads' modes must all be
/// supported.
pub fn stwo_modes_supported(mode: u64, precondition: &Data, witness: &Data) -> (r: bool)
    ensures
        r == (mode == 0 && precondition@.mode == 0 && witness@.mode == 0),
{
    mode == 0 && precondition.mode.0 == 0 && witness.mode.0 == 0
}

/// Splits a precondition/witness pair into the Pedersen flag and the raw
/// proof bytes: the flag comes from the precondition payload's first byte if
/// there is one, otherwise from the witness payload's first byte, with the
/// remainder of that payload as the proof; if both payloads are empty there
/// is no flag byte to read.
pub fn extract_proof_bytes<'a>(precondition: &'a Data, witness: &'a Data) -> (r: Result<
    (bool, &'a [u8]),
    ExtractError,
>)
    ensures
        precondition@.payload.len() > 0 ==> (r matches Ok(p) && p.0 == (precondition@.payload[0]
            != 0) && p.1@ == witness@.payload),
        precondition@.payload.len() == 0 && witness@.payload.len() > 0 ==> (r matches Ok(p) && p.0
            == (witness@.payload[0] != 0) && p.1@ == witness@.payload.skip(1)),
        precondition@.payload.len() == 0 && witness@.payload.len() == 0 ==> r == Err::<
            (bool, &'a [u8]),
            ExtractError,
        >(ExtractError::MissingFlagByte),
{
    if precondition.payload.len() > 0 {
        let flag = precondition.payload[0];
        Ok((flag != 0, witness.payload.as_slice()))
    } else if witness.payload.len() > 0 {
        let flag = witness.payload[0];
        let rest = slice_subrange(witness.payload.as_slice(), 1, witness.payload.len());
        proof {
            assert(rest@ =~= witness@.payload.skip(1));
        }
        Ok((flag != 0, rest))
    } else {
        Err(ExtractError::MissingFlagByte)
    }
}

} // verus!
