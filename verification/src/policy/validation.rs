//! The size check itself, with the exact rejection message: it reports
//! the observed byte count and the configured limit.

use vstd::prelude::*;
use crate::error::RfmtError;
use vstd::string::StringSliceAdditionalSpecFns;
use crate::text::{dec_digits, u64_to_string};

verus! {

/// A source of `size` bytes passes a ceiling of `max` bytes.
pub open spec fn size_admitted(size: nat, max: nat) -> bool {
    size <= max
}

/// The rejection message: observed byte count, then the limit.
pub open spec fn size_rejection_message(size: nat, max: nat) -> Seq<char> {
    "Source code is too large ("@ + dec_digits(size) + " bytes, max "@ + dec_digits(max)
        + " bytes)"@
}

/// The error value the guard returns for an oversized source.
pub open spec fn is_size_rejection(e: RfmtError, size: nat, max: nat) -> bool {
    &&& e matches RfmtError::UnsupportedFeature { feature, explanation }
    &&& feature@ == "Large file"@
    &&& explanation@ == size_rejection_message(size, max)
}

/// Rejects any source whose byte length exceeds `max_size`, before any
/// tree is built.
pub fn validate_source_size(source: &str, max_size: u64) -> (r: Result<(), RfmtError>)
    ensures
        size_admitted(source.spec_bytes().len(), max_size as nat) <==> r is Ok,
        r matches Err(e) ==> is_size_rejection(
            e,
            source.spec_bytes().len(),
            max_size as nat,
        ),
{
    let size = source.as_bytes().len() as u64;
    if size > max_size {
        let mut explanation = "Source code is too large (".to_owned();
        explanation.append(u64_to_string(size).as_str());
        explanation.append(" bytes, max ");
        explanation.append(u64_to_string(max_size).as_str());
        explanation.append(" bytes)");
        return Err(RfmtError::UnsupportedFeature {
            feature: "Large file".to_owned(),
            explanation,
        });
    }
    Ok(())
}

} // verus!
