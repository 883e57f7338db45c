use sm_api::datetime::{ToUtcDateTime, UtcDateTime};
use sm_api::error::ExtractError;

fn dt(year: i32, month: u8, day: u8, hour: u8) -> UtcDateTime {
    UtcDateTime { year, month, day, hour }
}

#[test]
fn normalize_round_trip_jan() {
    let r = "Jan 5 2021 14:".to_utc_datetime().unwrap();
    assert_eq!(r, dt(2021, 1, 5, 14));
}

#[test]
fn normalize_round_trip_dec() {
    let r = "Dec 31 2020 23:".to_utc_datetime().unwrap();
    assert_eq!(r, dt(2020, 12, 31, 23));
}

#[test]
fn normalize_all_months() {
    let months = [
        ("Jan", 1u8),
        ("Feb", 2),
        ("Mar", 3),
        ("Apr", 4),
        ("May", 5),
        ("Jun", 6),
        ("Jul", 7),
        ("Aug", 8),
        ("Sep", 9),
        ("Oct", 10),
        ("Nov", 11),
        ("Dec", 12),
    ];
    for (name, number) in months {
        let text = format!("{} 1 2021 0:", name);
        let r = text.as_str().to_utc_datetime().unwrap();
        assert_eq!(r, dt(2021, number, 1, 0));
    }
}

#[test]
fn unrecognized_month_fails() {
    let r = "Abc 1 2021 0:".to_utc_datetime();
    match r {
        Err(ExtractError::BadDate { raw }) => assert_eq!(raw, "Abc 1 2021 0:"),
        _ => panic!("expected a normalization error"),
    }
}

#[test]
fn trailing_tokens_are_ignored() {
    let r = "Jan 5 2021 14: +0".to_utc_datetime().unwrap();
    assert_eq!(r, dt(2021, 1, 5, 14));
}

#[test]
fn leap_day_is_valid_only_in_leap_years() {
    assert_eq!("Feb 29 2020 0:".to_utc_datetime().unwrap(), dt(2020, 2, 29, 0));
    assert!(matches!("Feb 29 2021 0:".to_utc_datetime(), Err(ExtractError::BadDate { .. })));
    assert_eq!("Feb 29 2000 0:".to_utc_datetime().unwrap(), dt(2000, 2, 29, 0));
    assert!(matches!("Feb 29 1900 0:".to_utc_datetime(), Err(ExtractError::BadDate { .. })));
}

#[test]
fn out_of_range_fields_fail() {
    assert!(matches!("Jan 0 2021 0:".to_utc_datetime(), Err(ExtractError::BadDate { .. })));
    assert!(matches!("Jan 32 2021 0:".to_utc_datetime(), Err(ExtractError::BadDate { .. })));
    assert!(matches!("Apr 31 2021 0:".to_utc_datetime(), Err(ExtractError::BadDate { .. })));
    assert!(matches!("Jan 5 2021 24:".to_utc_datetime(), Err(ExtractError::BadDate { .. })));
    assert!(matches!("Jan 5 12345 0:".to_utc_datetime(), Err(ExtractError::BadDate { .. })));
    assert!(matches!("Jan 5 -2021 0:".to_utc_datetime(), Err(ExtractError::BadDate { .. })));
}

#[test]
fn too_few_tokens_fail() {
    assert!(matches!("Jan 5 2021".to_utc_datetime(), Err(ExtractError::BadDate { .. })));
    assert!(matches!("".to_utc_datetime(), Err(ExtractError::BadDate { .. })));
}

#[test]
fn doubled_space_yields_empty_day_token() {
    assert!(matches!("Jan  5 2021 14:".to_utc_datetime(), Err(ExtractError::BadDate { .. })));
}

#[test]
fn signed_day_parses_like_integer_parsing() {
    assert_eq!("Jan +5 2021 14:".to_utc_datetime().unwrap(), dt(2021, 1, 5, 14));
}

#[test]
fn hour_without_colon_still_parses() {
    assert_eq!("Jan 5 2021 14".to_utc_datetime().unwrap(), dt(2021, 1, 5, 14));
}

#[test]
fn identity_normalization() {
    let d = dt(2021, 1, 5, 14);
    assert_eq!(d.to_utc_datetime().unwrap(), d);
}
