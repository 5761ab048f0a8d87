//! The input guard: a size-based admission check run before any
//! expensive work, bounding worst-case memory and CPU.

pub mod validation;

use vstd::prelude::*;
use crate::error::RfmtError;
use vstd::string::StringSliceAdditionalSpecFns;

verus! {

/// Resource policy for formatting operations.
#[derive(Debug, Clone)]
pub struct SecurityPolicy {
    /// Maximum source size in bytes.
    pub max_file_size: u64,
}

impl SecurityPolicy {
    /// Checks the source against this policy's size ceiling.
    pub fn validate_source_size(&self, source: &str) -> (r: Result<(), RfmtError>)
        ensures
            validation::size_admitted(source.spec_bytes().len(), self.max_file_size as nat)
                <==> r is Ok,
            r matches Err(e) ==> validation::is_size_rejection(
                e,
                source.spec_bytes().len(),
                self.max_file_size as nat,
            ),
    {
        validation::validate_source_size(source, self.max_file_size)
    }
}

impl Default for SecurityPolicy {
    /// The default ceiling is 10 MiB.
    fn default() -> (r: Self)
        ensures
            r.max_file_size == 10 * 1024 * 1024,
    {
        SecurityPolicy { max_file_size: 10 * 1024 * 1024 }
    }
}

} // verus!
