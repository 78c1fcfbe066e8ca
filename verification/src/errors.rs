//! Terminal statuses and the error taxonomy of the notarization pipeline.

use vstd::prelude::*;

verus! {

/// Terminal status reported back to the coordination server for a request.
#[derive(Clone, Copy, Debug, PartialEq, Eq, Structural)]
pub enum Status {
    Accept,
    Reject,
}

impl Status {
    /// The wire form of the status, as the coordination server expects it.
    pub fn as_report(&self) -> (r: &'static str)
        ensures
            *self is Accept ==> r@ == "accept"@,
            *self is Reject ==> r@ == "reject"@,
    {
        match self {
            Status::Accept => "accept",
            Status::Reject => "reject",
        }
    }
}

/// Why a request was rejected or a notarization attempt was aborted.
#[derive(Clone, Copy, Debug, PartialEq, Eq, Structural)]
pub enum PipelineError {
    /// The request carried no payload field.
    MissingPayload,
    /// The payload field was not `0x` followed by an even run of hex digits.
    MalformedPayload,
    /// A block address could not be decoded as a content address.
    MalformedAddress,
    /// A block address declares a hash algorithm other than the mandated one.
    WrongHashAlgorithm,
    /// A payload to emit would not fit in memory once framed.
    EncodingFailed,
    /// The shell handed the state machine an event its state does not expect.
    UnexpectedEvent,
    /// The shell reported a failed outside call.
    TransportFailed,
}

impl PipelineError {
    /// A diagnostic line for the operator's log.
    pub fn message(&self) -> (r: &'static str)
        ensures
            *self is MissingPayload ==> r@ == "request payload is missing"@,
            *self is MalformedPayload ==> r@ == "request payload is not a hex string"@,
            *self is MalformedAddress ==> r@ == "block address does not decode as a content address"@,
            *self is WrongHashAlgorithm ==> r@ == "block address declares a non-mandated hash algorithm"@,
            *self is EncodingFailed ==> r@ == "framed payload would be too large"@,
            *self is UnexpectedEvent ==> r@ == "event does not match the pipeline state"@,
            *self is TransportFailed ==> r@ == "outside call failed"@,
    {
        match self {
            PipelineError::MissingPayload => "request payload is missing",
            PipelineError::MalformedPayload => "request payload is not a hex string",
            PipelineError::MalformedAddress => "block address does not decode as a content address",
            PipelineError::WrongHashAlgorithm => "block address declares a non-mandated hash algorithm",
            PipelineError::EncodingFailed => "framed payload would be too large",
            PipelineError::UnexpectedEvent => "event does not match the pipeline state",
            PipelineError::TransportFailed => "outside call failed",
        }
    }
}

} // verus!
