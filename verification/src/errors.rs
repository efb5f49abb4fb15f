//! The failure taxonomy of the pipeline. The distinctions are internal:
//! the HTTP layer collapses every variant into one uniform response.

use vstd::prelude::*;

verus! {

/// A failure of the address-resolution stage.
#[derive(Clone, Copy, Debug, PartialEq, Eq)]
pub enum ResolutionError {
    /// The transport layer reported no remote address.
    MissingPeerAddress,
    /// An entry of the forwarded chain failed to parse as an IP address
    /// during the reverse scan.
    MalformedChainEntry,
    /// The reverse scan exhausted the chain without meeting a globally
    /// routable address.
    NoGlobalAddressFound,
}

/// A failure of the offset-calculation stage.
#[derive(Clone, Copy, Debug, PartialEq, Eq)]
pub enum TimezoneError {
    /// The timezone identifier is not a known IANA name.
    UnknownTimezone,
}

/// Any failure of the whole pipeline, one variant per stage outcome.
#[derive(Clone, Copy, Debug, PartialEq, Eq)]
pub enum PipelineError {
    /// The transport layer reported no remote address.
    MissingPeerAddress,
    /// An entry of the forwarded chain failed to parse as an IP address.
    MalformedChainEntry,
    /// The forwarded chain held no globally routable address.
    NoGlobalAddressFound,
    /// The geolocation dataset was unreachable, or its record lacked a
    /// location or a timezone name.
    LocationNotFound,
    /// The timezone identifier is not a known IANA name.
    UnknownTimezone,
}

impl PipelineError {
    /// The resolution failures embed one for one into the pipeline taxonomy.
    pub fn from_resolution(e: ResolutionError) -> (r: PipelineError)
        ensures
            r == (match e {
                ResolutionError::MissingPeerAddress => PipelineError::MissingPeerAddress,
                ResolutionError::MalformedChainEntry => PipelineError::MalformedChainEntry,
                ResolutionError::NoGlobalAddressFound => PipelineError::NoGlobalAddressFound,
            }),
    {
        match e {
            ResolutionError::MissingPeerAddress => PipelineError::MissingPeerAddress,
            ResolutionError::MalformedChainEntry => PipelineError::MalformedChainEntry,
            ResolutionError::NoGlobalAddressFound => PipelineError::NoGlobalAddressFound,
        }
    }
}

} // verus!
