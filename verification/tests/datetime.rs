use pcotool::datetime::{
    end_of_window, DateTimeUtc, MAX_TIMESTAMP, MIN_TIMESTAMP, SECONDS_PER_WEEK, WEEKS_AHEAD,
};

fn instant(secs: i64, nanos: u32) -> DateTimeUtc {
    DateTimeUtc::from_timestamp(secs, nanos).unwrap()
}

#[test]
fn instants_are_written_in_whole_seconds() {
    assert_eq!(instant(0, 0).to_rfc3339(), "1970-01-01T00:00:00+00:00");
    assert_eq!(instant(1_700_000_000, 999_999_999).to_rfc3339(), "2023-11-14T22:13:20+00:00");
    assert_eq!(instant(-1, 0).to_rfc3339(), "1969-12-31T23:59:59+00:00");
}

#[test]
fn leap_second_is_written_as_the_sixtieth() {
    assert_eq!(instant(1_483_228_799, 1_500_000_000).to_rfc3339(), "2016-12-31T23:59:60+00:00");
}

#[test]
fn first_and_last_instant_can_be_written() {
    assert_eq!(instant(MIN_TIMESTAMP, 0).to_rfc3339(), "-262143-01-01T00:00:00+00:00");
    assert_eq!(instant(MAX_TIMESTAMP, 0).to_rfc3339(), "+262142-12-31T23:59:59+00:00");
    assert_eq!(
        instant(MAX_TIMESTAMP, 1_999_999_999).to_rfc3339(),
        "+262142-12-31T23:59:60+00:00"
    );
}

#[test]
fn instants_keep_their_seconds_and_nanoseconds() {
    let t = instant(1_700_000_000, 123);
    assert_eq!(t.timestamp(), 1_700_000_000);
    assert_eq!(t.timestamp_subsec_nanos(), 123);
}

#[test]
fn instants_exist_where_a_date_can_name_them() {
    let seconds = [
        MIN_TIMESTAMP - 1, MIN_TIMESTAMP, -61, -60, -59, -1, 0, 58, 59, 60, 119, MAX_TIMESTAMP,
        MAX_TIMESTAMP + 1, i64::MIN, i64::MAX,
    ];
    let nanos = [0, 999_999_999, 1_000_000_000, 1_999_999_999, 2_000_000_000, u32::MAX];
    for secs in seconds {
        for n in nanos {
            assert_eq!(
                DateTimeUtc::from_timestamp(secs, n).is_some(),
                chrono::DateTime::from_timestamp(secs, n).is_some(),
                "{} {}",
                secs,
                n
            );
        }
    }
}

#[test]
fn window_is_eight_weeks() {
    assert_eq!(WEEKS_AHEAD, 8);
    let end = end_of_window(&instant(1_700_000_000, 5));
    assert_eq!(end.timestamp(), 1_704_838_400);
    assert_eq!(end.timestamp_subsec_nanos(), 5);
    assert_eq!(end.to_rfc3339(), "2024-01-09T22:13:20+00:00");
}

#[test]
fn window_that_starts_in_a_leap_second_ends_outside_of_one() {
    let end = end_of_window(&instant(1_483_228_799, 1_500_000_000));
    let later = chrono::DateTime::from_timestamp(1_483_228_799, 1_500_000_000).unwrap()
        + chrono::Duration::weeks(8);
    assert_eq!(end.timestamp(), later.timestamp());
    assert_eq!(end.timestamp_subsec_nanos(), later.timestamp_subsec_nanos());
    assert_eq!(end.timestamp_subsec_nanos(), 500_000_000);
}

#[test]
fn window_may_end_with_the_last_second() {
    let end = end_of_window(&instant(MAX_TIMESTAMP - 8 * SECONDS_PER_WEEK, 999_999_999));
    assert_eq!(end.timestamp(), MAX_TIMESTAMP);
    assert_eq!(end.timestamp_subsec_nanos(), 999_999_999);
}

#[test]
fn window_may_start_with_the_first_second() {
    let end = end_of_window(&instant(MIN_TIMESTAMP, 0));
    assert_eq!(end.timestamp(), MIN_TIMESTAMP + 8 * SECONDS_PER_WEEK);
}
