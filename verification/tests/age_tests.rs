use chrono::{Duration, Utc};
use helyos_cli::age::{age_at, age_label, format_age, seconds_between};

fn age(t: chrono::DateTime<Utc>) -> String {
    format_age(t.timestamp(), t.timestamp_subsec_nanos())
}

#[test]
fn test_format_age_days() {
    let now = Utc::now();
    let created = now - Duration::days(3);
    assert_eq!(age(created), "3d");
}

#[test]
fn test_format_age_hours() {
    let now = Utc::now();
    let created = now - Duration::hours(5);
    assert_eq!(age(created), "5h");
}

#[test]
fn test_format_age_minutes() {
    let now = Utc::now();
    let created = now - Duration::minutes(45);
    assert_eq!(age(created), "45m");
}

#[test]
fn test_format_age_seconds() {
    let now = Utc::now();
    let created = now - Duration::seconds(30);
    assert_eq!(age(created), "30s");
}

#[test]
fn test_format_age_just_now() {
    let now = Utc::now();
    assert_eq!(age(now), "just now");
}

#[test]
fn test_format_age_future() {
    let now = Utc::now();
    let future = now + Duration::hours(1);
    assert_eq!(age(future), "just now");
}

#[test]
fn age_labels_pick_the_largest_unit() {
    assert_eq!(age_label(-5), "just now");
    assert_eq!(age_label(0), "just now");
    assert_eq!(age_label(59), "59s");
    assert_eq!(age_label(60), "1m");
    assert_eq!(age_label(3599), "59m");
    assert_eq!(age_label(3600), "1h");
    assert_eq!(age_label(86399), "23h");
    assert_eq!(age_label(86400), "1d");
}

#[test]
fn whole_seconds_drop_the_fraction_towards_zero() {
    assert_eq!(seconds_between(10, 900_000_000, 12, 100_000_000), 1);
    assert_eq!(seconds_between(12, 100_000_000, 10, 900_000_000), -1);
    assert_eq!(seconds_between(5, 0, 5, 999_999_999), 0);
    assert_eq!(seconds_between(5, 500_000_000, 5, 0), 0);
}

#[test]
fn ages_follow_the_clock_reading() {
    assert_eq!(age_at(0, 0, Ok((90, 0))), "1m");
    assert_eq!(age_at(10, 900_000_000, Ok((12, 100_000_000))), "1s");
    assert_eq!(age_at(0, 0, Ok((3 * 86400 + 5, 0))), "3d");
    // a clock that reads before the Unix epoch
    assert_eq!(age_at(0, 0, Err((5, 0))), "just now");
    assert_eq!(age_at(-100, 0, Err((10, 0))), "1m");
    assert_eq!(age_at(-7200, 0, Err((0, 500_000_000))), "1h");
}
