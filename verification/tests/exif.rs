use culler_core::analyze::exif::{camera_name, capture_time, parse_exif_datetime};

#[test]
fn parses_exif_datetime_to_unix_seconds() {
    // date -u -j -f "%Y-%m-%d %T" "2019-07-15 14:30:05" +%s
    assert_eq!(parse_exif_datetime("2019:07:15 14:30:05"), Some(1563201005));
    assert_eq!(parse_exif_datetime("1970:01:01 00:00:00"), Some(0));
    // Leap day, and a pre-1970 date.
    assert_eq!(parse_exif_datetime("2024:02:29 12:00:00"), Some(1709208000));
    assert_eq!(parse_exif_datetime("1969:12:31 23:59:59"), Some(-1));
}

#[test]
fn rejects_garbage_datetimes() {
    assert_eq!(parse_exif_datetime(""), None);
    assert_eq!(parse_exif_datetime("not a date"), None);
    assert_eq!(parse_exif_datetime("2019:13:40 99:99:99"), None);
    // A common camera placeholder for "unset".
    assert_eq!(parse_exif_datetime("0000:00:00 00:00:00"), None);
}

#[test]
fn signed_fields_parse_as_integers_do() {
    // Each field goes through integer parsing, which accepts a sign.
    assert_eq!(parse_exif_datetime("2019:+7:15 14:30:05"), Some(1563201005));
    assert_eq!(parse_exif_datetime("2019:07:15 14:30:5 "), None);
    assert_eq!(parse_exif_datetime("2019-07-15 14:30:05"), None);
}

#[test]
fn leap_second_field_is_accepted() {
    assert_eq!(parse_exif_datetime("2016:12:31 23:59:60"), Some(1483228800));
    assert_eq!(parse_exif_datetime("2016:12:31 23:59:61"), None);
}

#[test]
fn camera_names_do_not_repeat_the_make() {
    let s = |v: &str| Some(v.to_owned());
    assert_eq!(camera_name(s("Canon"), s("Canon EOS R5")), s("Canon EOS R5"));
    assert_eq!(camera_name(s("SONY"), s("ILCE-7M3")), s("SONY ILCE-7M3"));
    assert_eq!(camera_name(None, s("iPhone 15")), s("iPhone 15"));
    assert_eq!(camera_name(s("Apple"), None), s("Apple"));
    assert_eq!(camera_name(None, None), None);
}

#[test]
fn capture_time_prefers_date_time_original_even_when_unparseable() {
    let s = |v: &str| Some(v.to_owned());
    assert_eq!(capture_time(s("2019:07:15 14:30:05"), s("1970:01:01 00:00:00")), Some(1563201005));
    assert_eq!(capture_time(None, s("1970:01:01 00:00:00")), Some(0));
    assert_eq!(capture_time(s("garbage"), s("1970:01:01 00:00:00")), None);
    assert_eq!(capture_time(None, None), None);
}
