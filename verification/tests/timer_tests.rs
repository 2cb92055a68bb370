use pomodoro_cli::timer_info::DEFAULT_TIMER_DURATION;
use pomodoro_cli::timer_info::TimerInfo;
use pomodoro_cli::timer_info::TimerState;

#[test]
fn test_time_left() {
    let now = chrono::Utc::now().timestamp();
    let mut timer_info = TimerInfo::default();
    timer_info.start_time = now - 10;
    timer_info.duration = 20;
    assert_eq!(timer_info.get_time_left(), 10);
}

#[test]
fn test_time_elapsed() {
    let now = chrono::Utc::now().timestamp();
    let mut timer_info = TimerInfo::default();
    timer_info.start_time = now - 10;
    timer_info.duration = 20;
    assert_eq!(timer_info.get_time_elapsed(), 10);
}

#[test]
fn test_default_record() {
    let t = TimerInfo::default();
    assert_eq!(t.state, TimerState::Paused);
    assert_eq!(t.start_time, t.pause_time);
    assert_eq!(t.duration, DEFAULT_TIMER_DURATION);
    assert_eq!(t.duration, 1500);
    assert!(!t.silent);
    assert!(!t.notify);
    assert!(!t.is_running());
}

#[test]
fn test_default_at() {
    let t = TimerInfo::default_at(1000);
    assert_eq!(t.state, TimerState::Paused);
    assert_eq!(t.start_time, 1000);
    assert_eq!(t.pause_time, 1000);
    assert_eq!(t.duration, DEFAULT_TIMER_DURATION);
    assert!(!t.silent);
    assert!(!t.notify);
    let clamped = TimerInfo::default_at(-5);
    assert_eq!(clamped.start_time, 0);
    assert_eq!(clamped.pause_time, 0);
}

#[test]
fn test_paused_elapsed_frozen() {
    let t = TimerInfo {
        state: TimerState::Paused,
        start_time: 990,
        pause_time: 1000,
        duration: 20,
        silent: false,
        notify: false,
    };
    assert_eq!(t.get_time_elapsed_at(12345), 10);
    assert_eq!(t.get_time_left_at(12345), 10);
    assert_eq!(t.get_time_elapsed_at(99999), 10);
    assert_eq!(t.get_time_elapsed(), 10);
    assert_eq!(t.get_time_left(), 10);
}

#[test]
fn test_finished_reports_duration() {
    let t = TimerInfo {
        state: TimerState::Finished,
        start_time: 1000,
        pause_time: 4000,
        duration: 1234,
        silent: false,
        notify: false,
    };
    assert_eq!(t.get_time_elapsed(), 1234);
    assert_eq!(t.get_time_elapsed_at(0), 1234);
    assert_eq!(t.get_time_elapsed_at(999_999), 1234);
    assert_eq!(t.get_time_left_at(999_999), 0);
}

#[test]
fn test_running_elapsed_never_negative() {
    let now = chrono::Utc::now().timestamp();
    let mut t = TimerInfo::default();
    t.state = TimerState::Running;
    t.start_time = now + 100_000;
    t.duration = 20;
    assert_eq!(t.get_time_elapsed(), 0);
    assert_eq!(t.get_time_elapsed_at(now), 0);
    assert_eq!(t.get_time_elapsed_at(5), 0);
}

#[test]
fn test_running_elapsed_counts_from_start() {
    let t = TimerInfo {
        state: TimerState::Running,
        start_time: 100,
        pause_time: 100,
        duration: 1500,
        silent: false,
        notify: false,
    };
    assert_eq!(t.get_time_elapsed_at(100), 0);
    assert_eq!(t.get_time_elapsed_at(160), 60);
    assert_eq!(t.get_time_left_at(160), 1440);
}

#[test]
fn test_overdue_time_left_goes_negative() {
    let t = TimerInfo {
        state: TimerState::Running,
        start_time: 0,
        pause_time: 0,
        duration: 10,
        silent: false,
        notify: false,
    };
    assert_eq!(t.get_time_left_at(25), -15);
}

#[test]
fn test_transitions_preserve_elapsed() {
    let mut t = TimerInfo {
        state: TimerState::Paused,
        start_time: 100,
        pause_time: 130,
        duration: 1500,
        silent: false,
        notify: false,
    };
    t.start(200);
    assert!(t.is_running());
    assert_eq!(t.get_time_elapsed_at(200), 30);
    assert_eq!(t.get_time_elapsed_at(260), 90);
    t.pause(260);
    assert!(!t.is_running());
    assert_eq!(t.get_time_elapsed_at(100_000), 90);
    t.finish();
    assert_eq!(t.get_time_elapsed_at(100_000), 1500);
    t.reconfigure(600, 3000);
    assert_eq!(t.state, TimerState::Paused);
    assert_eq!(t.start_time, 3000);
    assert_eq!(t.pause_time, 3000);
    assert_eq!(t.get_time_elapsed_at(5000), 0);
    assert_eq!(t.get_time_left_at(5000), 600);
}
