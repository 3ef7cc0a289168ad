use raphtory::errors::GraphError;
use raphtory::time::{millis_of, parse_time, read_fields, TimeFields};

#[test]
fn epoch_is_zero() {
    assert_eq!(parse_time("1970-01-01 00:00:00", "%Y-%m-%d %H:%M:%S"), Ok(0));
}

#[test]
fn date_and_time_give_milliseconds() {
    assert_eq!(parse_time("2021-03-04 05:06:07", "%Y-%m-%d %H:%M:%S"), Ok(1614834367000));
    assert_eq!(parse_time("04/03/2021 07.06.05", "%d/%m/%Y %S.%M.%H"), Ok(1614834367000));
}

#[test]
fn time_of_day_defaults_to_midnight() {
    assert_eq!(parse_time("2020-02-29", "%Y-%m-%d"), Ok(1582934400000));
    assert_eq!(parse_time("20000101", "%Y%m%d"), Ok(946684800000));
}

#[test]
fn times_before_the_epoch_are_negative() {
    assert_eq!(parse_time("1969-12-31 23:59:59", "%Y-%m-%d %H:%M:%S"), Ok(-1000));
    assert_eq!(parse_time("0001-01-01", "%Y-%m-%d"), Ok(-62135596800000));
}

#[test]
fn last_time_of_four_digit_years() {
    assert_eq!(parse_time("9999-12-31 23:59:59", "%Y-%m-%d %H:%M:%S"), Ok(253402300799000));
}

#[test]
fn percent_sign_is_escaped() {
    assert_eq!(parse_time("100% 1970-01-02", "100%% %Y-%m-%d"), Ok(86400000));
}

#[test]
fn malformed_time_is_an_error() {
    let fmt = "%Y-%m-%d %H:%M:%S";
    assert_eq!(parse_time("", fmt), Err(GraphError::ParseTime));
    assert_eq!(parse_time("2021-03-04", fmt), Err(GraphError::ParseTime));
    assert_eq!(parse_time("2021-03-04 05:06:07 ", fmt), Err(GraphError::ParseTime));
    assert_eq!(parse_time("2021-3-04 05:06:07", fmt), Err(GraphError::ParseTime));
    assert_eq!(parse_time("2021/03/04 05:06:07", fmt), Err(GraphError::ParseTime));
    assert_eq!(parse_time("yesterday", fmt), Err(GraphError::ParseTime));
}

#[test]
fn out_of_range_fields_are_errors() {
    let fmt = "%Y-%m-%d %H:%M:%S";
    assert_eq!(parse_time("2021-13-01 00:00:00", fmt), Err(GraphError::ParseTime));
    assert_eq!(parse_time("2021-00-01 00:00:00", fmt), Err(GraphError::ParseTime));
    assert_eq!(parse_time("2021-02-29 00:00:00", fmt), Err(GraphError::ParseTime));
    assert_eq!(parse_time("2021-04-31 00:00:00", fmt), Err(GraphError::ParseTime));
    assert_eq!(parse_time("2021-01-00 00:00:00", fmt), Err(GraphError::ParseTime));
    assert_eq!(parse_time("2021-01-01 24:00:00", fmt), Err(GraphError::ParseTime));
    assert_eq!(parse_time("2021-01-01 00:60:00", fmt), Err(GraphError::ParseTime));
    assert_eq!(parse_time("2021-01-01 00:00:60", fmt), Err(GraphError::ParseTime));
    assert_eq!(parse_time("0000-01-01 00:00:00", fmt), Err(GraphError::ParseTime));
}

#[test]
fn leap_years_follow_the_gregorian_rule() {
    assert!(parse_time("2000-02-29", "%Y-%m-%d").is_ok());
    assert!(parse_time("2024-02-29", "%Y-%m-%d").is_ok());
    assert_eq!(parse_time("1900-02-29", "%Y-%m-%d"), Err(GraphError::ParseTime));
    assert_eq!(parse_time("2100-02-29", "%Y-%m-%d"), Err(GraphError::ParseTime));
}

#[test]
fn bad_formats_are_errors() {
    assert_eq!(parse_time("2021", "%Y"), Err(GraphError::ParseTime));
    assert_eq!(parse_time("2021-01", "%Y-%m"), Err(GraphError::ParseTime));
    assert_eq!(parse_time("2021-01-01", "%Y-%m-%"), Err(GraphError::ParseTime));
    assert_eq!(parse_time("2021-01-01 x", "%Y-%m-%d %q"), Err(GraphError::ParseTime));
    assert_eq!(parse_time("2021-01-01 2021", "%Y-%m-%d %Y"), Err(GraphError::ParseTime));
}

#[test]
fn fields_are_read_one_by_one() {
    let f = read_fields("1999-12".as_bytes(), "%Y-%m".as_bytes()).unwrap();
    assert_eq!(
        f,
        TimeFields { year: Some(1999), month: Some(12), day: None, hour: None, minute: None, second: None }
    );
    assert_eq!(millis_of(&f), None);
    assert_eq!(read_fields("1999".as_bytes(), "%Y-".as_bytes()), None);
}
