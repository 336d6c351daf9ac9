use rmw_zenoh_mcap_writer::numparse::IntErrorKind;
use rmw_zenoh_mcap_writer::recorder::{
    current_local_time, local_time_at, parse_topic_list, record_filename, record_path, timestamp_text, LocalTime, RecorderError,
    RecorderHandlers,
};

fn at(year: i32, month: u32, day: u32, hour: u32, minute: u32, second: u32) -> Option<LocalTime> {
    Some(LocalTime { year, month, day, hour, minute, second })
}

#[test]
fn topic_list_cleaning() {
    assert_eq!(parse_topic_list(" /camera/* , chatter,,/, //x"), vec!["camera/*", "chatter", "/x"]);
    assert_eq!(parse_topic_list("*"), vec!["*"]);
    assert!(parse_topic_list("").is_empty());
    assert_eq!(parse_topic_list("\u{3000}/a\t"), vec!["a"]);
}

#[test]
fn filenames() {
    assert_eq!(record_filename("2025_10_03-17_09_53"), "rosbag2_2025_10_03-17_09_53.mcap");
    assert_eq!(record_path(".", "rosbag2_x.mcap"), "./rosbag2_x.mcap");
}

#[test]
fn start_stop_cycle() {
    let mut r = RecorderHandlers::new("/data".to_string());
    let plan = r.start_at("/camera/*,chatter", "2", at(2025, 1, 2, 3, 4, 5)).unwrap();
    assert_eq!(plan.topics, vec!["camera/*", "chatter"]);
    assert_eq!(plan.domain, 2);
    assert_eq!(plan.filename, "rosbag2_2025_01_02-03_04_05.mcap");
    assert_eq!(plan.path, "/data");
    assert_eq!(r.start_at("*", "0", at(2026, 1, 1, 0, 0, 0)).err(), Some(RecorderError::AlreadyRunning));
    assert_eq!(r.status(false), "recording");
    assert_eq!(r.stop(), Ok("rosbag2_2025_01_02-03_04_05.mcap".to_string()));
    assert_eq!(r.stop(), Err(RecorderError::NotRunning));
    assert_eq!(r.status(false), "stopped");
}

#[test]
fn start_with_bad_domain() {
    let mut r = RecorderHandlers::new(".".to_string());
    assert_eq!(r.start_at("*", "two", at(2025, 1, 1, 0, 0, 0)).err(), Some(RecorderError::InvalidDomain(IntErrorKind::InvalidDigit)));
    assert_eq!(r.start_at("*", "", None).err(), Some(RecorderError::InvalidDomain(IntErrorKind::Empty)));
    assert_eq!(r.status(false), "stopped");
}

#[test]
fn finished_task_is_forgotten() {
    let mut r = RecorderHandlers::new(".".to_string());
    r.start_at("*", "0", at(2025, 1, 1, 0, 0, 0)).unwrap();
    assert_eq!(r.status(true), "stopped");
    assert_eq!(r.stop(), Err(RecorderError::NotRunning));
}

#[test]
fn start_uses_current_time() {
    let mut r = RecorderHandlers::new(".".to_string());
    let plan = r.start("*", "0").unwrap();
    assert!(plan.filename.starts_with("rosbag2_"));
    assert!(plan.filename.ends_with(".mcap"));
    assert_eq!(plan.filename.len(), "rosbag2_".len() + 19 + ".mcap".len());
    assert_eq!(&plan.filename[18..19], "-");
}

#[test]
fn commands_and_replies() {
    let mut r = RecorderHandlers::new(".".to_string());
    let stop = r.stop_command();
    assert_eq!((stop.result.as_str(), stop.filename.as_str()), ("failure", ""));
    let (start, plan) = r.start_command(None, None);
    assert_eq!(start.result, "success");
    let plan = plan.unwrap();
    assert_eq!(plan.topics, vec!["**"]);
    assert_eq!(plan.domain, 0);
    let (again, none) = r.start_command(Some("chatter"), Some("1"));
    assert_eq!(again.result, "failure");
    assert!(none.is_none());
    assert_eq!(r.status_command(false).status, "recording");
    let stop = r.stop_command();
    assert_eq!(stop.result, "success");
    assert_eq!(stop.filename, plan.filename);
    assert_eq!(r.status_command(false).status, "stopped");
}

#[test]
fn start_command_with_invalid_topic_fails() {
    let mut r = RecorderHandlers::new(".".to_string());
    let (start, plan) = r.start_command(Some("a//b"), Some("0"));
    assert_eq!(start.result, "failure");
    assert!(plan.is_none());
    assert_eq!(r.status_command(false).status, "stopped");
    let (start, _) = r.start_command(Some("x"), Some("-1"));
    assert_eq!(start.result, "failure");
}

#[test]
fn timestamps() {
    let t = LocalTime { year: 2025, month: 10, day: 3, hour: 17, minute: 9, second: 53 };
    assert_eq!(timestamp_text(&t), "2025_10_03-17_09_53");
    assert_eq!(record_filename(&timestamp_text(&t)), "rosbag2_2025_10_03-17_09_53.mcap");
    let early = LocalTime { year: 7, month: 1, day: 2, hour: 0, minute: 0, second: 0 };
    assert_eq!(timestamp_text(&early), "0007_01_02-00_00_00");
    let far = LocalTime { year: 12345, month: 12, day: 31, hour: 23, minute: 59, second: 59 };
    assert_eq!(timestamp_text(&far), "+12345_12_31-23_59_59");
    let last = LocalTime { year: 9999, month: 12, day: 31, hour: 23, minute: 59, second: 59 };
    assert_eq!(timestamp_text(&last), "9999_12_31-23_59_59");
    let bc = LocalTime { year: -44, month: 3, day: 15, hour: 12, minute: 0, second: 0 };
    assert_eq!(timestamp_text(&bc), "-0044_03_15-12_00_00");
}

#[test]
fn invalid_topic_refused_before_clock() {
    let mut r = RecorderHandlers::new(".".to_string());
    assert_eq!(r.start_at("a//b", "0", at(2025, 1, 1, 0, 0, 0)).err(), Some(RecorderError::InvalidTopic));
    assert_eq!(r.start_at("a//b", "0", None).err(), Some(RecorderError::InvalidTopic));
    assert_eq!(r.start_at("chatter", "0", None).err(), Some(RecorderError::ClockUnavailable));
    assert_eq!(r.status(false), "stopped");
    assert!(r.start_at("chatter", "0", at(2025, 1, 1, 0, 0, 0)).is_ok());
}

#[test]
fn current_time_is_read() {
    let t = current_local_time().unwrap();
    let year = chrono::Datelike::year(&chrono::Local::now());
    assert!(t.year == year || t.year + 1 == year);
    assert!((1..=12).contains(&t.month) && (1..=31).contains(&t.day));
    assert!(t.hour < 24 && t.minute < 60 && t.second < 60);
}

#[test]
fn local_times_in_range() {
    assert!(local_time_at(0).is_some());
    assert!(local_time_at(1_759_504_193_000_000_000).is_some());
    let late = local_time_at(253_402_300_799 * 1_000_000_000 + 999_999_999).unwrap();
    assert!(late.year == 9999 || late.year == 10000);
    // Past the year 9999 the file name carries chrono's sign.
    let later = local_time_at(300_000_000_000 * 1_000_000_000).unwrap();
    assert!(timestamp_text(&later).starts_with('+'));
    assert!(local_time_at(u128::MAX).is_none());
}
