use pomodoro_cli::utils::get_human_readable_time;
use pomodoro_cli::utils::parse_duration;

#[test]
fn test_parse_duration() {
    assert_eq!(parse_duration("1h 30m 10s"), 5410);
    assert_eq!(parse_duration("1H 30Min 10SeC"), 5410);
    assert_eq!(parse_duration("2h15m1s"), 8101);
    assert_eq!(parse_duration("1h 30m"), 5400);
    assert_eq!(parse_duration("1hour"), 3600);
    assert_eq!(parse_duration("30m 10s"), 1810);
    assert_eq!(parse_duration("30m"), 1800);
    assert_eq!(parse_duration("10s"), 10);
    assert_eq!(parse_duration("100"), 100 * 60);
    assert_eq!(parse_duration("Invalid string"), 0);
}

#[test]
fn test_parse_duration_edge_cases() {
    assert_eq!(parse_duration(""), 0);
    assert_eq!(parse_duration("0"), 0);
    assert_eq!(parse_duration("+100"), 6000);
    assert_eq!(parse_duration("h"), 0);
    assert_eq!(parse_duration("90m"), 5400);
    assert_eq!(parse_duration("2minutes"), 120);
    assert_eq!(parse_duration("xm 5s"), 5);
    assert_eq!(parse_duration("1h xm 10s"), 3610);
    assert_eq!(parse_duration("1h\u{a0}30m"), 5400);
    assert_eq!(parse_duration("1h\u{2009}30m\u{3000}10s"), 5410);
}

#[test]
fn test_parse_duration_saturates() {
    assert_eq!(parse_duration("18446744073709551615"), u64::MAX);
}

#[test]
fn test_get_human_readable_time() {
    assert_eq!(get_human_readable_time(5410), "1h 30m 10s");
    assert_eq!(get_human_readable_time(60), "1m 0s");
    assert_eq!(get_human_readable_time(10), "10s");
    assert_eq!(get_human_readable_time(0), "0s");
}

#[test]
fn test_get_human_readable_time_edge_cases() {
    assert_eq!(get_human_readable_time(3600), "1h 0s");
    assert_eq!(get_human_readable_time(3661), "1h 1m 1s");
    assert_eq!(get_human_readable_time(59), "59s");
    assert_eq!(get_human_readable_time(7200), "2h 0s");
}

#[test]
fn test_format_parse_round_trip() {
    for seconds in [0u64, 10, 60, 61, 3600, 3661, 5410, 86399] {
        let rendered = get_human_readable_time(seconds);
        assert_eq!(parse_duration(&rendered), seconds);
    }
}
