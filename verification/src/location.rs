//! The location resolver's data model: what the geolocation dataset hands
//! back for an address, reduced to the one field the pipeline reads.

use vstd::prelude::*;
use crate::errors::PipelineError;

verus! {

/// The location sub-record of a dataset record.
#[derive(Debug, PartialEq, Eq)]
pub struct LocationRecord {
    /// The IANA timezone identifier, when the dataset has one.
    pub time_zone: Option<String>,
}

/// A dataset record for one address. Every field the pipeline does not read
/// is left out.
#[derive(Debug, PartialEq, Eq)]
pub struct CityRecord {
    pub location: Option<LocationRecord>,
}

/// The timezone name buried in a lookup result, if every step of the chain
/// record -> location -> timezone name is present.
pub open spec fn record_timezone(city: Option<CityRecord>) -> Option<Seq<char>> {
    match city {
        Some(c) => match c.location {
            Some(l) => match l.time_zone {
                Some(t) => Some(t@),
                None => None,
            },
            None => None,
        },
        None => None,
    }
}

/// Extracts the timezone name from a lookup result. An absent record, an
/// absent location and an absent timezone field all yield the same
/// `LocationNotFound`: to the caller, dataset unreachability and absence of
/// data are indistinguishable.
pub fn extract_timezone(city: Option<CityRecord>) -> (r: Result<String, PipelineError>)
    ensures
        r is Ok <==> record_timezone(city) is Some,
        r matches Ok(t) ==> record_timezone(city) == Some(t@),
        r is Err ==> r == Err::<String, PipelineError>(PipelineError::LocationNotFound),
{
    match city {
        Some(c) => match c.location {
            Some(l) => match l.time_zone {
                Some(t) => Ok(t),
                None => Err(PipelineError::LocationNotFound),
            },
            None => Err(PipelineError::LocationNotFound),
        },
        None => Err(PipelineError::LocationNotFound),
    }
}

} // verus!
