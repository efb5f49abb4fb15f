use tzoffset::errors::{PipelineError, TimezoneError};
use tzoffset::handler::offset_from_record;
use tzoffset::location::{extract_timezone, CityRecord, LocationRecord};
use tzoffset::offset::compute_offset;

const JULY_INSTANT: i64 = 1625097600; // 2021-07-01T00:00:00Z
const JANUARY_INSTANT: i64 = 1610712000; // 2021-01-15T12:00:00Z

#[test]
fn new_york_summer_offset() {
    assert_eq!(compute_offset("America/New_York", JULY_INSTANT), Ok(-14400));
}

#[test]
fn new_york_winter_offset() {
    assert_eq!(compute_offset("America/New_York", JANUARY_INSTANT), Ok(-18000));
}

#[test]
fn unknown_timezone_fails() {
    assert_eq!(
        compute_offset("Not/AZone", JULY_INSTANT),
        Err(TimezoneError::UnknownTimezone)
    );
    assert_eq!(compute_offset("", JANUARY_INSTANT), Err(TimezoneError::UnknownTimezone));
}

#[test]
fn utc_offset_is_zero() {
    assert_eq!(compute_offset("UTC", JULY_INSTANT), Ok(0));
    assert_eq!(compute_offset("UTC", JANUARY_INSTANT), Ok(0));
}

#[test]
fn eastward_offset_is_positive() {
    assert_eq!(compute_offset("Asia/Kolkata", JANUARY_INSTANT), Ok(19800));
}

#[test]
fn extract_timezone_from_full_record() {
    let city = Some(CityRecord {
        location: Some(LocationRecord { time_zone: Some("America/New_York".to_string()) }),
    });
    assert_eq!(extract_timezone(city), Ok("America/New_York".to_string()));
}

#[test]
fn extract_timezone_absent_record() {
    assert_eq!(extract_timezone(None), Err(PipelineError::LocationNotFound));
}

#[test]
fn extract_timezone_absent_location() {
    let city = Some(CityRecord { location: None });
    assert_eq!(extract_timezone(city), Err(PipelineError::LocationNotFound));
}

#[test]
fn extract_timezone_absent_name() {
    let city = Some(CityRecord { location: Some(LocationRecord { time_zone: None }) });
    assert_eq!(extract_timezone(city), Err(PipelineError::LocationNotFound));
}

#[test]
fn offset_from_record_success() {
    let city = Some(CityRecord {
        location: Some(LocationRecord { time_zone: Some("America/New_York".to_string()) }),
    });
    assert_eq!(offset_from_record(city, JULY_INSTANT), Ok(-14400));
}

#[test]
fn offset_from_record_absent_location() {
    assert_eq!(
        offset_from_record(None, JULY_INSTANT),
        Err(PipelineError::LocationNotFound)
    );
}

#[test]
fn offset_from_record_unknown_zone() {
    let city = Some(CityRecord {
        location: Some(LocationRecord { time_zone: Some("Not/AZone".to_string()) }),
    });
    assert_eq!(
        offset_from_record(city, JULY_INSTANT),
        Err(PipelineError::UnknownTimezone)
    );
}
