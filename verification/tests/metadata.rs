use rmw_zenoh_mcap_writer::bag::{get_entity_id, BagMetadata, EntityIds, NanoDuration, StartingTime};
use rmw_zenoh_mcap_writer::registry::{ros_distro_or_default, ros_type_query, ROS_DISTRO_REGISTRY_KEY};

#[test]
fn bag_metadata_fields() {
    let m = BagMetadata::starting_at(&"rosbag2_x.mcap".to_string(), "jazzy".to_string(), 123);
    assert_eq!(m.version, 9);
    assert_eq!(m.storage_identifier, "mcap");
    assert_eq!(m.relative_file_paths, vec!["rosbag2_x.mcap".to_string()]);
    assert!(m.files.is_empty());
    assert_eq!(m.duration, NanoDuration { nanoseconds: 0 });
    assert_eq!(m.starting_time, StartingTime { nanoseconds_since_epoch: 123 });
    assert_eq!(m.message_count, 0);
    assert!(m.topics_with_message_count.is_empty());
    assert_eq!(m.compression_format, "");
    assert_eq!(m.compression_mode, "");
    assert_eq!(m.custom_data, "~");
    assert_eq!(m.ros_distro, "jazzy");
}

#[test]
fn bag_metadata_now() {
    let before = std::time::SystemTime::now().duration_since(std::time::UNIX_EPOCH).unwrap().as_nanos();
    let m = BagMetadata::new(&"f.mcap".to_string(), "kilted".to_string()).unwrap();
    assert!(m.starting_time.nanoseconds_since_epoch >= before);
    assert_eq!(m.relative_file_paths, vec!["f.mcap".to_string()]);
}

#[test]
fn entity_ids_count_up() {
    let mut ids = EntityIds::new();
    assert_eq!(get_entity_id(&mut ids), 1);
    assert_eq!(get_entity_id(&mut ids), 2);
    assert_eq!(get_entity_id(&mut ids), 3);
}

#[test]
fn registry_queries() {
    assert_eq!(ros_type_query("std_msgs/msg/String"), "@ros2_types/std_msgs/msg/String?format=Mcap");
    assert_eq!(ros_distro_or_default(None), "kilted");
    assert_eq!(ros_distro_or_default(Some("jazzy".to_string())), "jazzy");
    assert_eq!(ROS_DISTRO_REGISTRY_KEY, "@ros2_env/ROS_DISTRO");
}
