//! Errors of the host side.

use vstd::prelude::*;

verus! {

/// What can go wrong between the host and the attestation service.
#[derive(Clone, Debug, PartialEq, Eq)]
pub enum HostError {
    /// The input ended before the last field was complete.
    UnexpectedEof,
    /// More bytes than a quote body has.
    QuoteBodyTooBig,
    /// More bytes than a report body has.
    ReportBodyTooBig,
    /// The attestation service could not be reached or turned the request
    /// down; the text says how.
    AS(String),
}

impl HostError {
    /// The error in words.
    pub fn message(&self) -> (text: String)
        ensures
            text@ == match *self {
                HostError::UnexpectedEof => "failed to fill whole buffer"@,
                HostError::QuoteBodyTooBig => "String passed to QuoteBody is too big."@,
                HostError::ReportBodyTooBig => "String passed to ReportBody is too big."@,
                HostError::AS(msg) => msg@,
            },
    {
        match self {
            HostError::UnexpectedEof => "failed to fill whole buffer".to_owned(),
            HostError::QuoteBodyTooBig => "String passed to QuoteBody is too big.".to_owned(),
            HostError::ReportBodyTooBig => "String passed to ReportBody is too big.".to_owned(),
            HostError::AS(msg) => msg.clone(),
        }
    }
}

} // verus!
