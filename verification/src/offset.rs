//! The offset calculator: parses a timezone identifier against the IANA
//! rule database and computes the UTC offset in force at a given instant.

use vstd::prelude::*;
use crate::errors::TimezoneError;

verus! {

/// The largest instant the calculator accepts, in seconds since the Unix
/// epoch: the last second of year 9999, comfortably inside the range the
/// timezone library represents.
pub const MAX_UNIX_SECONDS: i64 = 253402300799;

/// Whether a timezone identifier is a known IANA name: the condition under
/// which chrono_tz's name lookup succeeds.
pub uninterp spec fn known_timezone(name: Seq<char>) -> bool;

/// The UTC offset, in seconds east of UTC, that the named timezone's rules
/// put in force at the given instant. A function of the name and the
/// instant alone: the rule database is compiled into chrono_tz.
pub uninterp spec fn utc_offset_at(name: Seq<char>, unix_secs: int) -> int;

/// Relies on chrono_tz: `Tz::from_str` is an exact lookup among the IANA
/// names (it decides `known_timezone`), and `offset_from_utc_datetime` on
/// the parsed zone evaluates the compiled rule database at the instant,
/// which `chrono::DateTime::from_timestamp` builds from the seconds and
/// `Offset::fix` reads back as a `chrono::FixedOffset`, whose documented
/// invariant keeps the seconds strictly within one day.
#[verifier::external_body]
fn lookup_offset(name: &str, unix_secs: i64) -> (r: Option<i32>)
    requires
        0 <= unix_secs <= MAX_UNIX_SECONDS,
    ensures
        r is Some <==> known_timezone(name@),
        r matches Some(v) ==> v == utc_offset_at(name@, unix_secs as int) && -86400 < v < 86400,
{
    match name.parse::<chrono_tz::Tz>() {
        Ok(tz) => {
            let dt = chrono::DateTime::from_timestamp(unix_secs, 0).unwrap().naive_utc();
            let offset = <chrono_tz::Tz as chrono::TimeZone>::offset_from_utc_datetime(&tz, &dt);
            Some(chrono::Offset::fix(&offset).local_minus_utc())
        },
        Err(_) => None,
    }
}

/// Computes the UTC offset of the named timezone at the given instant.
///
/// Succeeds exactly on the known IANA names; an unknown or malformed name
/// fails with `UnknownTimezone`. The result holds only for the instant
/// supplied: daylight-saving rules move it with the date, so it is
/// recomputed per call and never cached.
pub fn compute_offset(name: &str, now_unix: i64) -> (r: Result<i32, TimezoneError>)
    requires
        0 <= now_unix <= MAX_UNIX_SECONDS,
    ensures
        r is Ok <==> known_timezone(name@),
        r matches Ok(v) ==> v == utc_offset_at(name@, now_unix as int) && -86400 < v < 86400,
        !known_timezone(name@) ==> r == Err::<i32, TimezoneError>(TimezoneError::UnknownTimezone),
{
    match lookup_offset(name, now_unix) {
        Some(v) => Ok(v),
        None => Err(TimezoneError::UnknownTimezone),
    }
}

} // verus!
