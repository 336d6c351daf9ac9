use rmw_zenoh_mcap_writer::ros_names::{dds_type_to_ros_type, parse_subscription_ros_keyepxr, RosKeyExprError};

#[test]
fn test_dds_type_to_ros_type() {
    let transformed_ros_type = dds_type_to_ros_type("std_msgs::msg::dds_::String_");
    assert_eq!("std_msgs/msg/String", transformed_ros_type);
}

#[test]
fn dds_type_of_nested_message() {
    assert_eq!(dds_type_to_ros_type("sensor_msgs::msg::dds_::Image_"), "sensor_msgs/msg/Image");
}

#[test]
fn dds_type_drops_last_character_even_without_underscore() {
    assert_eq!(dds_type_to_ros_type("a::b"), "a/");
    assert_eq!(dds_type_to_ros_type("x"), "");
    assert_eq!(dds_type_to_ros_type(""), "");
}

#[test]
fn dds_type_replaces_every_infix() {
    assert_eq!(dds_type_to_ros_type("dds_::dds_::X_"), "X");
    // `:::` has one `::` from the left, then a lone `:`.
    assert_eq!(dds_type_to_ros_type("a:::b_"), "a/:b");
}

#[test]
fn parse_subscription_with_nested_topic() {
    let (domain, topic, rostype, hash) =
        parse_subscription_ros_keyepxr("0/camera/image_raw/sensor_msgs::msg::dds_::Image_/RIHS01_ab12").unwrap();
    assert_eq!(domain, "0");
    assert_eq!(topic, "camera/image_raw");
    assert_eq!(rostype, "sensor_msgs::msg::dds_::Image_");
    assert_eq!(hash, "RIHS01_ab12");
}

#[test]
fn parse_subscription_single_chunk_topic() {
    let r = parse_subscription_ros_keyepxr("2/chatter/std_msgs::msg::dds_::String_/h").unwrap();
    assert_eq!(r, ("2".to_string(), "chatter".to_string(), "std_msgs::msg::dds_::String_".to_string(), "h".to_string()));
}

#[test]
fn parse_subscription_empty_topic_chunk() {
    let r = parse_subscription_ros_keyepxr("0//t/h").unwrap();
    assert_eq!(r, ("0".to_string(), "".to_string(), "t".to_string(), "h".to_string()));
}

#[test]
fn parse_subscription_too_few_chunks() {
    assert_eq!(parse_subscription_ros_keyepxr("0/chatter/type"), Err(RosKeyExprError::WrongFormat));
    assert_eq!(parse_subscription_ros_keyepxr(""), Err(RosKeyExprError::WrongFormat));
}

#[test]
fn parse_subscription_rebuilds_input() {
    let input = "7/a/b/c/d/type/hash";
    let (d, t, ty, h) = parse_subscription_ros_keyepxr(input).unwrap();
    assert_eq!(format!("{d}/{t}/{ty}/{h}"), input);
}

#[test]
fn parse_subscription_of_formatted_keyexpr() {
    let (d, t, ty, h) = ("42", "robot/arm/joint_states", "sensor_msgs::msg::dds_::JointState_", "RIHS01_x");
    let input = format!("{d}/{t}/{ty}/{h}");
    assert_eq!(
        parse_subscription_ros_keyepxr(&input).unwrap(),
        (d.to_string(), t.to_string(), ty.to_string(), h.to_string())
    );
}
