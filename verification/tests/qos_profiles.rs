use rmw_zenoh_mcap_writer::duration::{default_duration, RosDuration};
use rmw_zenoh_mcap_writer::numparse::IntErrorKind;
use rmw_zenoh_mcap_writer::qos::{parse_zenoh_qos, zenoh_qos_is_well_formed, QoSProfile};

const DEFAULT_DURATION: RosDuration = RosDuration { secs: 9_223_372_036, nanos: 854_775_807 };

#[test]
fn default_duration_is_i64_max_nanoseconds() {
    assert_eq!(default_duration(), DEFAULT_DURATION);
}

#[test]
fn default_profile() {
    let p = QoSProfile::default();
    assert_eq!(p.history, "keep_last");
    assert_eq!(p.depth, Some(10));
    assert_eq!(p.reliability, "reliable");
    assert_eq!(p.durability, "volatile");
    assert_eq!(p.deadline, DEFAULT_DURATION);
    assert_eq!(p.lifespan, DEFAULT_DURATION);
    assert_eq!(p.liveliness, "automatic");
    assert_eq!(p.liveliness_lease_duration, DEFAULT_DURATION);
    assert!(!p.avoid_ros_namespace_conventions);
}

#[test]
fn transient_local_keep_last() {
    let q = ":1:,1:,:,:,,";
    assert!(zenoh_qos_is_well_formed(q));
    let p = parse_zenoh_qos(q).unwrap();
    assert_eq!(p.reliability, "reliable");
    assert_eq!(p.durability, "transient_local");
    assert_eq!(p.history, "keep_last");
    assert_eq!(p.depth, Some(1));
    assert_eq!(p.deadline, DEFAULT_DURATION);
    assert_eq!(p.lifespan, DEFAULT_DURATION);
    assert_eq!(p.liveliness, "automatic");
    assert_eq!(p.liveliness_lease_duration, DEFAULT_DURATION);
}

#[test]
fn best_effort_keep_all_with_durations() {
    let q = "2:2:2,:1,5:,:2,3,4";
    assert!(zenoh_qos_is_well_formed(q));
    let p = parse_zenoh_qos(q).unwrap();
    assert_eq!(p.reliability, "best_effort");
    assert_eq!(p.durability, "volatile");
    assert_eq!(p.history, "keep_all");
    assert_eq!(p.depth, Some(10));
    assert_eq!(p.deadline, RosDuration { secs: 1, nanos: 5 });
    assert_eq!(p.lifespan, DEFAULT_DURATION);
    assert_eq!(p.liveliness, "manual_by_topic");
    assert_eq!(p.liveliness_lease_duration, RosDuration { secs: 3, nanos: 4 });
}

#[test]
fn negative_and_carrying_durations() {
    // -1 s + 5 ns = -0.999999995 s: chrono reports 0 whole seconds.
    let p = parse_zenoh_qos("::,5:-1,5:2,1500000000:,,").unwrap();
    assert_eq!(p.deadline, RosDuration { secs: 0, nanos: -999_999_995 });
    assert_eq!(p.lifespan, RosDuration { secs: 3, nanos: 500_000_000 });
    let q = "::,5:-3,-200:,:,,";
    let p = parse_zenoh_qos(q).unwrap();
    assert_eq!(p.deadline, RosDuration { secs: -3, nanos: -200 });
}

#[test]
fn duration_with_one_empty_part_is_unset() {
    let p = parse_zenoh_qos("::,5:5,:,7:2,,9").unwrap();
    assert_eq!(p.deadline, DEFAULT_DURATION);
    assert_eq!(p.lifespan, DEFAULT_DURATION);
    assert_eq!(p.liveliness, "manual_by_topic");
    assert_eq!(p.liveliness_lease_duration, DEFAULT_DURATION);
}

#[test]
fn invalid_numbers_are_errors() {
    assert_eq!(parse_zenoh_qos("::1,x:,:,:,,").err(), Some(IntErrorKind::InvalidDigit));
    assert_eq!(parse_zenoh_qos("::1,:,:,:,,").err(), Some(IntErrorKind::Empty));
    assert_eq!(parse_zenoh_qos("::1,4294967296:,:,:,,").err(), Some(IntErrorKind::PosOverflow));
    assert_eq!(parse_zenoh_qos("::,1:a,1:,:,,").err(), Some(IntErrorKind::InvalidDigit));
    assert_eq!(parse_zenoh_qos("::,1:1,2147483648:,:,,").err(), Some(IntErrorKind::PosOverflow));
    assert_eq!(parse_zenoh_qos("::,1:,:,:2,-9223372036854775809,0").err(), Some(IntErrorKind::NegOverflow));
}

#[test]
fn an_error_before_a_missing_field_is_reported() {
    // The depth is read before the fourth field is looked for.
    assert!(zenoh_qos_is_well_formed("::1,x"));
    assert_eq!(parse_zenoh_qos("::1,x").err(), Some(IntErrorKind::InvalidDigit));
}

#[test]
fn malformed_chunks() {
    assert!(!zenoh_qos_is_well_formed(""));
    assert!(!zenoh_qos_is_well_formed("::"));
    assert!(!zenoh_qos_is_well_formed("::2,:,:,"));
    assert!(!zenoh_qos_is_well_formed("::1"));
    assert!(!zenoh_qos_is_well_formed("::,1:5:,:,,"));
    assert!(!zenoh_qos_is_well_formed("::,1:,:,:2,1"));
    assert!(!zenoh_qos_is_well_formed("::,1:9223372036854776,0:,:,,"));
    assert!(!zenoh_qos_is_well_formed("::,1:9223372036854775,900000000:,:,,"));
    assert!(zenoh_qos_is_well_formed("::,1:9223372036854775,807000000:,:,,"));
    assert!(!zenoh_qos_is_well_formed("::,1:,:,:2"));
}

#[test]
fn largest_duration_chrono_accepts() {
    let p = parse_zenoh_qos("::,1:9223372036854775,807000000:,:,,").unwrap();
    assert_eq!(p.deadline, RosDuration { secs: 9_223_372_036_854_775, nanos: 807_000_000 });
}

#[test]
fn smallest_duration_chrono_accepts() {
    let q = "::,1:-9223372036854775,-807000000:,:,,";
    assert!(zenoh_qos_is_well_formed(q));
    let p = parse_zenoh_qos(q).unwrap();
    assert_eq!(p.deadline, RosDuration { secs: -9_223_372_036_854_775, nanos: -807_000_000 });
    assert!(!zenoh_qos_is_well_formed("::,1:-9223372036854775,-807000001:,:,,"));
}
