//! The error taxonomy: every stage of the pipeline is fail-fast and
//! reports exactly one of these values; no partial output is ever
//! produced.

use vstd::prelude::*;

verus! {

/// One terminal error value per failed operation.
#[derive(Debug)]
pub enum RfmtError {
    /// Malformed input, surfaced unchanged from the parser.
    ParseError { message: String },
    /// A configuration value violates its bound; the message carries the
    /// field name and the valid range.
    ConfigError { message: String },
    /// A rule's apply step failed; carries the rule name.
    RuleError { rule: String },
    /// The input guard rejected the source; carries the observed size and
    /// the configured limit.
    UnsupportedFeature { feature: String, explanation: String },
    /// An internal invariant was violated.
    InternalError { message: String },
}

impl RfmtError {
    /// A human-readable account of the error, without the variant tag.
    pub fn describe(&self) -> (r: String)
        ensures
            r@ == self.spec_describe(),
    {
        match self {
            RfmtError::ParseError { message } => message.clone(),
            RfmtError::ConfigError { message } => message.clone(),
            RfmtError::RuleError { rule } => rule.clone(),
            RfmtError::UnsupportedFeature { feature: _, explanation } => explanation.clone(),
            RfmtError::InternalError { message } => message.clone(),
        }
    }

    /// The model of `describe`.
    pub open spec fn spec_describe(&self) -> Seq<char> {
        match self {
            RfmtError::ParseError { message } => message@,
            RfmtError::ConfigError { message } => message@,
            RfmtError::RuleError { rule } => rule@,
            RfmtError::UnsupportedFeature { feature, explanation } => explanation@,
            RfmtError::InternalError { message } => message@,
        }
    }
}

} // verus!
