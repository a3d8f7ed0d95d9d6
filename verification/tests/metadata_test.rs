use yellowbox::metadata::{
    generate_clean_filename, get_clean_date_prefix, parse_date_flexible, timestamp_seconds,
};

#[test]
fn test_metadata_filename_generation_integration() {
    let date_str = "2024-05-15 10:15:30 UTC";
    let id = "integ_test";
    let ext = "png";
    let clean_name = generate_clean_filename(date_str, id, ext);
    assert_eq!(clean_name, "2024-05-15_10-15-30_integ_test.png");
}

#[test]
fn test_generate_clean_filename_image() {
    let date_str = "2021-12-10 12:55:19 UTC";
    let expected = "2021-12-10_12-55-19_abc123.jpg";
    assert_eq!(generate_clean_filename(date_str, "abc123", "jpg"), expected);
}

#[test]
fn test_generate_clean_filename_video() {
    let date_str = "2023-01-01 00:00:00 UTC";
    let expected = "2023-01-01_00-00-00_xyz789.mp4";
    assert_eq!(generate_clean_filename(date_str, "xyz789", "mp4"), expected);
}

#[test]
fn test_generate_clean_filename_no_utc() {
    let date_str = "2024-02-29 23:59:59";
    let expected = "2024-02-29_23-59-59_foo456.mp4";
    assert_eq!(generate_clean_filename(date_str, "foo456", "mp4"), expected);
}

#[test]
fn rfc3339_dates_are_converted_to_utc() {
    assert_eq!(get_clean_date_prefix("2020-04-28T06:32:52Z"), "2020-04-28_06-32-52");
    assert_eq!(get_clean_date_prefix("2020-04-28T08:32:52+02:00"), "2020-04-28_06-32-52");
    assert_eq!(timestamp_seconds("2020-04-28T06:32:52Z"), Some(1588055572));
}

#[test]
fn surrounding_whitespace_is_ignored() {
    assert_eq!(timestamp_seconds("  1970-01-01 00:00:10 UTC  "), Some(10));
    assert_eq!(timestamp_seconds("   "), None);
    assert_eq!(timestamp_seconds(""), None);
}

#[test]
fn month_name_dates_are_read_as_utc() {
    let p = parse_date_flexible("Apr 28, 2020, 06:32").unwrap();
    assert_eq!((p.year, p.month, p.day, p.hour, p.minute, p.second), (2020, 4, 28, 6, 32, 0));
    assert_eq!(p.timestamp, 1588055520);
    assert_eq!(get_clean_date_prefix("Apr 28, 2020, 06:32"), "2020-04-28_06-32-00");
}

#[test]
fn unparseable_dates_fall_back_to_text_replacement() {
    assert_eq!(get_clean_date_prefix("yesterday 10:15 UTC"), "yesterday_10-15");
    assert_eq!(generate_clean_filename("a b:c", "id", "jpg"), "a_b-c_id.jpg");
}

#[test]
fn early_and_late_years_are_padded_and_signed() {
    assert_eq!(get_clean_date_prefix("0099-01-02 03:04:05"), "0099-01-02_03-04-05");
    let p = parse_date_flexible("2001-02-03 04:05:06 UTC").unwrap();
    assert_eq!((p.year, p.month, p.day, p.hour, p.minute, p.second), (2001, 2, 3, 4, 5, 6));
}

#[test]
fn prefixes_sort_as_the_instants_do() {
    let dates = [
        "1999-12-31 23:59:59 UTC",
        "2000-01-01T00:00:00Z",
        "2000-01-01T01:59:59+02:00",
        "2020-02-29 12:00:00",
        "Mar 1, 2020, 00:00",
        "2020-04-28T08:32:52+02:00",
        "2020-04-28 06:32:53 UTC",
    ];
    for a in dates.iter() {
        for b in dates.iter() {
            let ta = timestamp_seconds(a).unwrap();
            let tb = timestamp_seconds(b).unwrap();
            let pa = get_clean_date_prefix(a);
            let pb = get_clean_date_prefix(b);
            assert_eq!(ta < tb, pa < pb, "{} vs {}", a, b);
            assert_eq!(ta == tb, pa == pb, "{} vs {}", a, b);
        }
    }
}
