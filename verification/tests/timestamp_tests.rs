use ftp_fighter::timestamp::{parse_timestamp, path_contains_rclone_modification_date, Timestamp};

#[test]
fn storage_backend_timestamp_parsing_works() {
    let result = parse_timestamp("20221003093709").unwrap();
    let resulting_string = result.to_display_string();
    assert_eq!("2022-10-03 09:37:09", resulting_string)
}

#[test]
fn utils_test_timestamp_parsing_works() {
    let result = parse_timestamp("20221003093709").unwrap();
    let resulting_string = result.to_display_string();
    assert_eq!("2022-10-03 09:37:09", resulting_string)
}

#[test]
fn storage_backend_path_contains_rclone_modification_date_works() {
    let option = path_contains_rclone_modification_date("/20221003093709 /Home/School");

    match option {
        Some(result) => {
            assert_eq!(parse_timestamp("20221003093709").unwrap(), result.0);
            assert_eq!("/Home/School", result.1);
        }
        None => panic!("Expected some value here."),
    }
}

#[test]
fn utils_test_path_contains_rclone_modification_date_works() {
    let option = path_contains_rclone_modification_date("/20221003093709 /Home/School");

    match option {
        Some(result) => {
            assert_eq!(parse_timestamp("20221003093709").unwrap(), result.0);
            assert_eq!("/Home/School", result.1);
        }
        None => panic!("Expected some value here."),
    }
}

#[test]
fn storage_backend_path_contains_rclone_modification_date_fails_without_whitespace() {
    let option = path_contains_rclone_modification_date("/20221003093709/Home/School");
    assert!(option.is_none())
}

#[test]
fn utils_test_path_contains_rclone_modification_date_fails_without_whitespace() {
    let option = path_contains_rclone_modification_date("/20221003093709/Home/School");
    assert!(option.is_none())
}

#[test]
fn storage_backend_path_contains_rclone_modification_date_fails_with_wrong_timestamp_format() {
    let option = path_contains_rclone_modification_date("/202210030937 /Home/School");
    assert!(option.is_none())
}

#[test]
fn utils_test_path_contains_rclone_modification_date_fails_with_wrong_timestamp_format() {
    let option = path_contains_rclone_modification_date("/202210030937 /Home/School");
    assert!(option.is_none())
}

#[test]
fn storage_backend_path_contains_rclone_modification_date_fails_with_wrong_timestamp() {
    let option = path_contains_rclone_modification_date("/20221003093790 /Home/School");
    assert!(option.is_none())
}

#[test]
fn utils_test_path_contains_rclone_modification_date_fails_with_wrong_timestamp() {
    let option = path_contains_rclone_modification_date("/20221003093790 /Home/School");
    assert!(option.is_none())
}

#[test]
fn timestamp_fields_are_parsed() {
    let t = parse_timestamp("20221003093709").unwrap();
    assert_eq!(
        t,
        Timestamp { year: 2022, month: 10, day: 3, hour: 9, minute: 37, second: 9 }
    );
}

#[test]
fn timestamp_rejects_invalid_calendar_times() {
    // month out of range
    assert!(parse_timestamp("20221303093709").is_none());
    // month zero
    assert!(parse_timestamp("20220003093709").is_none());
    // day out of range for November
    assert!(parse_timestamp("20221131093709").is_none());
    // day zero
    assert!(parse_timestamp("20221100093709").is_none());
    // February 29 only in leap years
    assert!(parse_timestamp("20230229093709").is_none());
    assert!(parse_timestamp("20240229093709").is_some());
    // century years are leap years only when divisible by 400
    assert!(parse_timestamp("19000229120000").is_none());
    assert!(parse_timestamp("20000229120000").is_some());
    // hour, minute, second ranges
    assert!(parse_timestamp("20221003243709").is_none());
    assert!(parse_timestamp("20221003096009").is_none());
    assert!(parse_timestamp("20221003093760").is_none());
    // not digits
    assert!(parse_timestamp("2022100309370x").is_none());
    // too short and too long
    assert!(parse_timestamp("2022100309370").is_none());
    assert!(parse_timestamp("202210030937091").is_none());
}

#[test]
fn detector_needs_at_least_two_components() {
    assert!(path_contains_rclone_modification_date("/").is_none());
    assert!(path_contains_rclone_modification_date("/20221003093709 ").is_some());
    assert!(path_contains_rclone_modification_date("").is_none());
}

#[test]
fn detector_on_unrooted_path_reads_second_component() {
    let (t, rest) = path_contains_rclone_modification_date("Home/20221003093709 /School").unwrap();
    assert_eq!(t.year, 2022);
    assert_eq!(rest, "Home/School");
}

#[test]
fn epoch_seconds_match_known_values() {
    let t = parse_timestamp("20221003093709").unwrap();
    assert_eq!(t.epoch_seconds(), 1664789829);
    let t = parse_timestamp("19700101000000").unwrap();
    assert_eq!(t.epoch_seconds(), 0);
    let t = parse_timestamp("19691231235959").unwrap();
    assert_eq!(t.epoch_seconds(), -1);
    let t = parse_timestamp("20000229120000").unwrap();
    assert_eq!(t.epoch_seconds(), 951825600);
}
