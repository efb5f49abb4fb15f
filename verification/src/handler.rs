//! The request handler's verified core: the stage pipeline composed with
//! early exit, and the uniform HTTP response built from its outcome.

use vstd::prelude::*;
use crate::errors::{PipelineError, ResolutionError};
use crate::ip::IpAddress;
use crate::location::{record_timezone, CityRecord};
use crate::offset::{known_timezone, utc_offset_at, MAX_UNIX_SECONDS};
use crate::resolver::resolve_spec;
use crate::text::dec_string;

verus! {

/// A resolution outcome lifted into the pipeline taxonomy.
pub open spec fn lift_resolution(r: Result<IpAddress, ResolutionError>) -> Result<
    IpAddress,
    PipelineError,
> {
    match r {
        Ok(ip) => Ok(ip),
        Err(ResolutionError::MissingPeerAddress) => Err(PipelineError::MissingPeerAddress),
        Err(ResolutionError::MalformedChainEntry) => Err(PipelineError::MalformedChainEntry),
        Err(ResolutionError::NoGlobalAddressFound) => Err(PipelineError::NoGlobalAddressFound),
    }
}

/// The first stage: the client address, with its failures lifted into the
/// pipeline taxonomy. The caller looks this address up in the geolocation
/// dataset and hands the record to [`offset_from_record`].
pub fn client_address(peer: Option<IpAddress>, header: Option<&str>) -> (r: Result<
    IpAddress,
    PipelineError,
>)
    ensures
        r == lift_resolution(
            resolve_spec(
                peer,
                match header {
                    Some(h) => Some(h@),
                    None => None::<Seq<char>>,
                },
            ),
        ),
{
    match crate::resolver::resolve(peer, header) {
        Ok(ip) => Ok(ip),
        Err(e) => Err(PipelineError::from_resolution(e)),
    }
}

/// The remaining stages: the timezone name out of the lookup record, then
/// the UTC offset in force at the instant, each failure cutting the chain
/// short.
pub fn offset_from_record(city: Option<CityRecord>, now_unix: i64) -> (r: Result<
    i32,
    PipelineError,
>)
    requires
        0 <= now_unix <= MAX_UNIX_SECONDS,
    ensures
        record_timezone(city) is None ==> r == Err::<i32, PipelineError>(
            PipelineError::LocationNotFound,
        ),
        record_timezone(city) matches Some(name) ==> {
            &&& r is Ok <==> known_timezone(name)
            &&& (r matches Ok(v) ==> v == utc_offset_at(name, now_unix as int) && -86400 < v
                < 86400)
            &&& (!known_timezone(name) ==> r == Err::<i32, PipelineError>(
                PipelineError::UnknownTimezone,
            ))
        },
{
    match crate::location::extract_timezone(city) {
        Err(e) => Err(e),
        Ok(name) => match crate::offset::compute_offset(name.as_str(), now_unix) {
            Ok(v) => Ok(v),
            Err(crate::errors::TimezoneError::UnknownTimezone) => Err(
                PipelineError::UnknownTimezone,
            ),
        },
    }
}

/// What the HTTP layer sends back: a status code and a plain-text body.
#[derive(Debug, PartialEq, Eq)]
pub struct HttpResponse {
    pub status: u16,
    pub body: String,
}

/// Builds the response from the pipeline's outcome. A success carries the
/// offset as a decimal string with status 200; every failure, whatever its
/// internal kind, collapses to status 500 with the one fixed body, so that
/// no internal distinction reaches the caller.
pub fn respond(outcome: Result<i32, PipelineError>) -> (r: HttpResponse)
    ensures
        outcome matches Ok(v) ==> r.status == 200 && r.body@ == dec_string(v as int),
        outcome is Err ==> r.status == 500 && r.body@ == "Server Error"@,
{
    match outcome {
        Ok(v) => HttpResponse { status: 200, body: crate::text::decimal_string(v) },
        Err(_) => HttpResponse { status: 500, body: "Server Error".to_owned() },
    }
}

} // verus!
