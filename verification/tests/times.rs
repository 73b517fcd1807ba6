use earbuddy::chrono_time_str;
use earbuddy::clock::uptime_text;
use earbuddy::clock::write_clock_reading;
use earbuddy::clock::write_time_of_day;
use earbuddy::clock::ClockError;

#[test]
fn time_of_day_is_written_with_two_digits() {
    assert_eq!(write_time_of_day(0), "00:00:00");
    assert_eq!(write_time_of_day(61), "00:01:01");
    assert_eq!(write_time_of_day(86399), "23:59:59");
    assert_eq!(write_time_of_day(86400), "00:00:00");
    assert_eq!(write_time_of_day(1_700_000_000), "22:13:20");
    assert_eq!(write_time_of_day(u64::MAX).len(), 8);
}

#[test]
fn time_of_day_comes_round() {
    for secs in [0, 1, 59, 3600, 45296, 86399] {
        assert_eq!(write_time_of_day(secs), write_time_of_day(secs + 86400));
    }
}

#[test]
fn seconds_of_a_day_differ() {
    let mut seen: Vec<String> = (0..86400u64).map(write_time_of_day).collect();
    seen.sort();
    seen.dedup();
    assert_eq!(seen.len(), 86400);
}

#[test]
fn present_time_is_read_from_the_clock() {
    let secs = || {
        std::time::SystemTime::now()
            .duration_since(std::time::UNIX_EPOCH)
            .unwrap()
            .as_secs()
    };
    let before = secs();
    let time = chrono_time_str();
    let after = secs();
    match time {
        Ok(time) => assert!((before..=after).any(|s| write_time_of_day(s) == time)),
        Err(error) => panic!("{:?}", error),
    }
}

#[test]
fn clock_error_is_named() {
    assert_eq!(format!("{:?}", ClockError::BeforeEpoch), "BeforeEpoch");
}

#[test]
fn clock_reading_gives_a_time_or_an_error() {
    assert_eq!(write_clock_reading(Some(0)), Ok("00:00:00".to_string()));
    assert_eq!(write_clock_reading(Some(1_700_000_000)), Ok("22:13:20".to_string()));
    assert_eq!(write_clock_reading(None), Err(ClockError::BeforeEpoch));
}

#[test]
fn uptime_counts_hours_beyond_a_day() {
    assert_eq!(uptime_text(0), "⏱  Uptime  00:00:00");
    assert_eq!(uptime_text(3725), "⏱  Uptime  01:02:05");
    assert_eq!(uptime_text(90_061), "⏱  Uptime  25:01:01");
    assert_eq!(uptime_text(360_000), "⏱  Uptime  100:00:00");
}

#[test]
fn short_uptime_reads_like_a_time_of_day() {
    assert_eq!(uptime_text(45_296), format!("⏱  Uptime  {}", write_time_of_day(45_296)));
}
